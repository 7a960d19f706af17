use std::collections::VecDeque;

use bittorrent::assembly::Assembly;
use bittorrent::client::{BlockRequest, Client};
use bittorrent::error::Error;
use bittorrent::integrity::verify_piece_integrity;
use bittorrent::message::{
    have_message, piece_message, Message, MESSAGE_BITFIELD, MESSAGE_CHOKE, MESSAGE_UNCHOKE,
};
use bittorrent::peer::Peer;
use bittorrent::piece::{PieceResult, PieceWork};
use bittorrent::torrent::Torrent;
use bittorrent::worker::{claim, settle, Claim, Settled};
use crypto::digest::Digest;

fn sha1(data: &[u8]) -> Vec<u8> {
    let mut h = crypto::sha1::Sha1::new();
    h.input(data);
    let mut out = vec![0u8; 20];
    h.result(&mut out);
    out
}

fn session(bitfield: Vec<u8>) -> Client {
    let mut c = Client::new(Peer::new(), vec![1u8; 20], vec![2u8; 20]);
    c.read_bitfield(Message::new_with_payload(MESSAGE_BITFIELD, bitfield)).unwrap();
    c
}

#[test]
fn piece_acceptance() {
    let mut client = session(vec![0x80]);
    client.read_unchoke();
    let mut work = PieceWork::new(0, vec![0u8; 20], 40000);
    let reqs = client.request_blocks(&mut work);
    assert_eq!(reqs.len(), 3);
    let block = vec![0x5Au8; 16384];
    let before = work.downloaded;
    client.handle_message(piece_message(0, 16384, &block), &mut work).unwrap();
    assert_eq!(work.downloaded, before + 16384);
    assert!(work.data[16384..32768].iter().all(|&b| b == 0x5A));
    assert!(work.data[..16384].iter().all(|&b| b == 0));
    assert!(work.data[32768..].iter().all(|&b| b == 0));
    assert_eq!(work.requests, 2);
}

#[test]
fn last_piece_blocks() {
    let mut client = session(vec![0xff]);
    client.read_unchoke();
    let mut work = PieceWork::new(2, vec![0u8; 20], 40000);
    let reqs = client.request_blocks(&mut work);
    assert_eq!(
        reqs,
        vec![
            BlockRequest { index: 2, begin: 0, length: 16384 },
            BlockRequest { index: 2, begin: 16384, length: 16384 },
            BlockRequest { index: 2, begin: 32768, length: 7232 },
        ]
    );
    assert_eq!(work.requested, 40000);
    assert!(client.request_blocks(&mut work).is_empty());
}

#[test]
fn pipeline_is_capped_at_five() {
    let mut client = session(vec![0xff]);
    client.read_unchoke();
    let mut work = PieceWork::new(0, vec![0u8; 20], 262144);
    let reqs = client.request_blocks(&mut work);
    assert_eq!(reqs.len(), 5);
    assert_eq!(work.requests, 5);
    assert_eq!(work.requested, 5 * 16384);
    assert_eq!(reqs[4].begin, 4 * 16384);
    client.handle_message(piece_message(0, 0, &vec![1u8; 16384]), &mut work).unwrap();
    let more = client.request_blocks(&mut work);
    assert_eq!(more, vec![BlockRequest { index: 0, begin: 5 * 16384, length: 16384 }]);
}

#[test]
fn choked_session_requests_nothing() {
    let client = session(vec![0xff]);
    assert!(client.is_choked());
    let mut work = PieceWork::new(0, vec![0u8; 20], 1000);
    assert!(client.request_blocks(&mut work).is_empty());
    assert_eq!(work.requests, 0);
    assert_eq!(work.requested, 0);
}

#[test]
fn choke_and_unchoke_messages() {
    let mut client = session(vec![0xff]);
    let mut work = PieceWork::new(0, vec![0u8; 20], 100);
    client.handle_message(Message::new(MESSAGE_UNCHOKE), &mut work).unwrap();
    assert!(!client.is_choked());
    client.handle_message(Message::new(MESSAGE_CHOKE), &mut work).unwrap();
    assert!(client.is_choked());
    client.handle_message(Message::new(9), &mut work).unwrap();
    assert!(client.is_choked());
}

#[test]
fn have_marks_piece() {
    let mut client = session(vec![0x00, 0x00]);
    assert!(!client.has_piece(10));
    let mut work = PieceWork::new(0, vec![0u8; 20], 100);
    client.handle_message(have_message(10), &mut work).unwrap();
    assert!(client.has_piece(10));
    assert!(!client.has_piece(11));
    client.read_have(have_message(99)).unwrap();
    assert!(!client.has_piece(99));
    let bad = Message::new_with_payload(4, vec![1, 2]);
    assert_eq!(client.read_have(bad), Err(Error::Protocol));
}

#[test]
fn bitfield_message_required() {
    let mut c = Client::new(Peer::new(), vec![1u8; 20], vec![2u8; 20]);
    assert_eq!(c.read_bitfield(Message::new(MESSAGE_UNCHOKE)), Err(Error::Protocol));
    assert!(!c.has_piece(0));
    c.set_piece(0);
    assert!(!c.has_piece(0));
}

#[test]
fn piece_rejections() {
    let mut client = session(vec![0xff]);
    client.read_unchoke();
    let mut work = PieceWork::new(1, vec![0u8; 20], 100);
    // nothing requested yet
    assert_eq!(client.read_piece(piece_message(1, 0, &[1, 2]), &mut work), Err(Error::Protocol));
    client.request_blocks(&mut work);
    // wrong index
    assert_eq!(client.read_piece(piece_message(2, 0, &[1, 2]), &mut work), Err(Error::Protocol));
    // past the end
    assert_eq!(client.read_piece(piece_message(1, 99, &[1, 2]), &mut work), Err(Error::Protocol));
    // not a PIECE
    assert_eq!(client.read_piece(Message::new(MESSAGE_CHOKE), &mut work), Err(Error::Protocol));
    assert_eq!(work.downloaded, 0);
    client.read_piece(piece_message(1, 98, &[1, 2]), &mut work).unwrap();
    assert_eq!(work.data[98..], [1, 2]);
    assert_eq!(work.downloaded, 2);
}

#[test]
fn handshake_check() {
    let client = Client::new(Peer::new(), vec![1u8; 20], vec![2u8; 20]);
    let hs = client.handshake();
    assert_eq!(hs.len(), 68);
    assert_eq!(client.check_handshake(&hs[1..].to_vec(), 19), Ok(()));
    let other = Client::new(Peer::new(), vec![1u8; 20], vec![3u8; 20]);
    assert_eq!(other.check_handshake(&hs[1..].to_vec(), 19), Err(Error::Handshake));
    assert_eq!(client.check_handshake(&hs[1..40].to_vec(), 19), Err(Error::Handshake));
}

#[test]
fn integrity_abc() {
    let expected = vec![
        0xa9, 0x99, 0x3e, 0x36, 0x47, 0x06, 0x81, 0x6a, 0xba, 0x3e, 0x25, 0x71, 0x78, 0x50, 0xc2,
        0x6c, 0x9c, 0xd0, 0xd8, 0x9d,
    ];
    let mut work = PieceWork::new(0, expected.clone(), 3);
    work.data = b"abc".to_vec();
    assert_eq!(verify_piece_integrity(&work), Ok(()));
    work.data = b"abd".to_vec();
    assert_eq!(verify_piece_integrity(&work), Err(Error::Integrity));
    let t = Torrent::from_metainfo(String::new(), b"abc", &expected, 3, 3, String::new(), vec![])
        .unwrap();
    assert_eq!(t.info_hash(), &expected);
}

#[test]
fn worker_requeues_missing_piece() {
    let client = session(vec![0b0100_0000]);
    let work = PieceWork::new(0, vec![0u8; 20], 10);
    match claim(&client, work) {
        Claim::Requeue(w) => assert_eq!(w.index, 0),
        Claim::Download(_) => panic!("peer lacks piece 0"),
    }
    match claim(&client, PieceWork::new(1, vec![0u8; 20], 10)) {
        Claim::Download(w) => assert_eq!(w.index, 1),
        Claim::Requeue(_) => panic!("peer has piece 1"),
    }
}

#[test]
fn worker_settles_every_outcome() {
    let data = b"hello".to_vec();
    let mut work = PieceWork::new(4, sha1(&data), 5);
    work.data = data.clone();
    match settle(work.clone(), Err(Error::Io)) {
        Settled::Abandon(w) => assert_eq!(w.index, 4),
        _ => panic!("a failed download is abandoned"),
    }
    match settle(work.clone(), Ok(())) {
        Settled::Deliver(r) => {
            assert_eq!((r.index, r.length), (4, 5));
            assert_eq!(r.data, data);
        }
        _ => panic!("a checked piece is delivered"),
    }
    work.data = b"jello".to_vec();
    match settle(work, Ok(())) {
        Settled::Retry(w) => assert_eq!(w.data, b"jello".to_vec()),
        _ => panic!("a corrupt piece is retried"),
    }
}

fn hashes_of(file: &[u8], piece_length: usize) -> Vec<u8> {
    file.chunks(piece_length).flat_map(sha1).collect()
}

#[test]
fn plan_and_piece_lengths() {
    let file: Vec<u8> = (0..80u8).collect();
    let t = Torrent::from_metainfo(
        "http://tracker".to_string(),
        b"info",
        &hashes_of(&file, 32),
        32,
        80,
        "f".to_string(),
        vec![7u8; 20],
    )
    .unwrap();
    assert_eq!(t.num_pieces(), 3);
    assert_eq!(t.get_piece_length(0), Ok(32));
    assert_eq!(t.get_piece_length(2), Ok(16));
    assert_eq!(t.get_piece_length(3), Err(Error::Plan));
    let works = t.piece_works().unwrap();
    let lens: Vec<u32> = works.iter().map(|w| w.length).collect();
    assert_eq!(lens, vec![32, 32, 16]);
    assert_eq!(works[1].hash, sha1(&file[32..64]));
    assert!(works.iter().all(|w| w.data.len() == w.length as usize && w.downloaded == 0));
}

#[test]
fn plan_errors() {
    let two = vec![0u8; 40];
    let r = Torrent::from_metainfo(String::new(), b"", &two, 32, 80, String::new(), vec![]);
    assert_eq!(r.err(), Some(Error::Plan));
    let r = Torrent::from_metainfo(String::new(), b"", &two, 32, 64, String::new(), vec![]);
    assert!(r.is_ok());
    let r = Torrent::from_metainfo(String::new(), b"", &two, 32, 32, String::new(), vec![]);
    assert_eq!(r.err(), Some(Error::Plan));
    let r = Torrent::from_metainfo(String::new(), b"", &two, 0, 0, String::new(), vec![]);
    assert_eq!(r.err(), Some(Error::Plan));
    let r = Torrent::from_metainfo(String::new(), b"", &[0u8; 21], 32, 20, String::new(), vec![]);
    assert_eq!(r.err(), Some(Error::Metainfo));
    assert_eq!(Torrent::new().piece_works().err(), Some(Error::Plan));
}

#[test]
fn compact_peers() {
    let t = Torrent::new();
    let peers = t.build_peers(vec![192, 168, 1, 2, 0x1A, 0xE1, 10, 0, 0, 1, 0, 80]).unwrap();
    assert_eq!(peers.len(), 2);
    assert_eq!(peers[0], Peer { id: 0, ip: [192, 168, 1, 2], port: 6881 });
    assert_eq!(peers[1], Peer { id: 1, ip: [10, 0, 0, 1], port: 80 });
    assert_eq!(t.build_peers(vec![1, 2, 3, 4, 5]), Err(Error::Protocol));
    assert!(t.build_peers(vec![]).unwrap().is_empty());
}

#[test]
fn assembly_takes_each_piece_once() {
    let file: Vec<u8> = (0..80u8).collect();
    let t = Torrent::from_metainfo(String::new(), b"", &hashes_of(&file, 32), 32, 80, String::new(), vec![])
        .unwrap();
    let mut a = Assembly::new(&t).unwrap();
    let p1 = PieceResult::new(1, 32, file[32..64].to_vec());
    assert_eq!(a.accept(p1.clone()), Ok(()));
    assert_eq!(a.accept(p1), Err(Error::Protocol));
    assert_eq!(a.received_count(), 1);
    assert_eq!(a.accept(PieceResult::new(2, 32, file[48..80].to_vec())), Err(Error::Protocol));
    assert_eq!(a.accept(PieceResult::new(2, 16, vec![0u8; 16])), Err(Error::Integrity));
    assert_eq!(a.accept(PieceResult::new(3, 16, vec![0u8; 16])), Err(Error::Protocol));
    assert!(!a.is_complete());
}

/// Serves the pieces of `file` the way a compliant peer answers REQUESTs.
fn serve(file: &[u8], piece_length: usize, reqs: &[BlockRequest], out: &mut VecDeque<Message>) {
    for r in reqs {
        let start = r.index as usize * piece_length + r.begin as usize;
        out.push_back(piece_message(r.index, r.begin, &file[start..start + r.length as usize]));
    }
}

#[test]
fn end_to_end_three_pieces() {
    let file: Vec<u8> = (0..80u8).map(|b| b.wrapping_mul(37)).collect();
    let t = Torrent::from_metainfo(
        "http://tracker".to_string(),
        b"info",
        &hashes_of(&file, 32),
        32,
        80,
        "out".to_string(),
        vec![9u8; 20],
    )
    .unwrap();
    let mut queue: VecDeque<PieceWork> = t.piece_works().unwrap().into_iter().collect();
    let mut assembly = Assembly::new(&t).unwrap();
    let mut client = Client::new(Peer::new(), t.peer_id().clone(), t.info_hash().clone());
    client.read_bitfield(Message::new_with_payload(MESSAGE_BITFIELD, vec![0b1110_0000])).unwrap();
    let mut inbox: VecDeque<Message> = VecDeque::new();
    inbox.push_back(Message::new(MESSAGE_UNCHOKE));
    while !assembly.is_complete() {
        let work = queue.pop_front().unwrap();
        let mut work = match claim(&client, work) {
            Claim::Download(w) => w,
            Claim::Requeue(w) => {
                queue.push_back(w);
                continue;
            }
        };
        work.reset();
        let mut outcome = Ok(());
        while !work.is_downloaded() {
            let reqs = client.request_blocks(&mut work);
            serve(&file, 32, &reqs, &mut inbox);
            let m = inbox.pop_front().unwrap();
            if let Err(e) = client.handle_message(m, &mut work) {
                outcome = Err(e);
                break;
            }
        }
        match settle(work, outcome) {
            Settled::Deliver(r) => assembly.accept(r).unwrap(),
            Settled::Retry(w) | Settled::Abandon(w) => queue.push_back(w),
        }
    }
    assert_eq!(assembly.received_count(), 3);
    let out = assembly.into_data();
    assert_eq!(out.len(), 80);
    assert_eq!(out, file);
}

#[test]
fn never_unchoked_piece_is_requeued() {
    let client = session(vec![0xff]);
    let mut work = match claim(&client, PieceWork::new(0, vec![0u8; 20], 20000)) {
        Claim::Download(w) => w,
        Claim::Requeue(_) => panic!("peer has piece 0"),
    };
    work.reset();
    for _ in 0..3 {
        assert!(client.request_blocks(&mut work).is_empty());
    }
    // the read times out: the attempt fails and the work goes back
    match settle(work, Err(Error::Io)) {
        Settled::Abandon(w) => {
            assert_eq!((w.index, w.length), (0, 20000));
            assert_eq!(w.requested, 0);
        }
        _ => panic!("a timed-out download is abandoned"),
    }
}
