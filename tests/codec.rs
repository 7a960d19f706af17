use bittorrent::bitfield::{has_piece, set_piece};
use bittorrent::error::Error;
use bittorrent::handshake::{check_pstrlen, deserialize_handshake, Handshake};
use bittorrent::message::{
    deserialize_message, have_message, parse_have, parse_piece, parse_request, piece_message,
    read_u32_be, request_message, write_u32_be, Message, MESSAGE_HAVE, MESSAGE_PIECE,
    MESSAGE_REQUEST, MESSAGE_UNCHOKE,
};

#[test]
fn bitfield_packing() {
    let mut bf: Vec<u8> = vec![0b1000_0000];
    assert!(has_piece(&mut bf, 0));
    for i in 1..8 {
        assert!(!has_piece(&mut bf, i));
    }
    let bf2 = set_piece(&bf, 3);
    assert_eq!(bf2, vec![0b1001_0000]);
    let mut bf2 = bf2;
    assert!(has_piece(&mut bf2, 3));
    assert!(has_piece(&mut bf2, 0));
    assert!(!has_piece(&mut bf2, 2));
}

#[test]
fn bitfield_out_of_range() {
    let mut bf: Vec<u8> = vec![0xff, 0x00];
    assert!(has_piece(&mut bf, 7));
    assert!(!has_piece(&mut bf, 8));
    assert!(!has_piece(&mut bf, 16));
    assert!(!has_piece(&mut bf, 1000));
    assert_eq!(set_piece(&bf, 16), vec![0xff, 0x00]);
    assert_eq!(set_piece(&bf, 15), vec![0xff, 0x01]);
    let empty: Vec<u8> = vec![];
    assert_eq!(set_piece(&empty, 0), Vec::<u8>::new());
}

#[test]
fn bitfield_set_keeps_other_bits() {
    let bf: Vec<u8> = vec![0b0101_0101, 0b1010_1010];
    let mut after = set_piece(&bf, 9);
    let mut before = bf.clone();
    for j in 0..16 {
        if j != 9 {
            assert_eq!(has_piece(&mut after, j), has_piece(&mut before, j));
        }
    }
    assert!(has_piece(&mut after, 9));
}

#[test]
fn handshake_round_trip() {
    let info_hash = vec![0x00u8; 20];
    let peer_id = vec![0x01u8; 20];
    let h = Handshake::new(peer_id.clone(), info_hash.clone());
    let bytes = h.serialize().unwrap();
    assert_eq!(bytes.len(), 68);
    assert_eq!(&bytes[0..5], &[0x13, b'B', b'i', b't', b'T']);
    assert_eq!(&bytes[1..20], b"BitTorrent protocol");
    assert_eq!(&bytes[20..28], &[0u8; 8]);
    assert_eq!(&bytes[28..48], &info_hash[..]);
    assert_eq!(&bytes[48..68], &peer_id[..]);
    let pstrlen = check_pstrlen(bytes[0]).unwrap();
    assert_eq!(pstrlen, 19);
    let decoded = deserialize_handshake(&bytes[1..].to_vec(), pstrlen).unwrap();
    assert_eq!(decoded.serialize().unwrap(), bytes);
    assert_eq!(decoded.get_info_hash(), info_hash);
}

#[test]
fn handshake_errors() {
    assert_eq!(check_pstrlen(0), Err(Error::Handshake));
    assert!(deserialize_handshake(&vec![0u8; 66], 19).is_err());
    assert!(deserialize_handshake(&vec![0u8; 67], 0).is_err());
    assert!(deserialize_handshake(&vec![0u8; 67], 19).is_ok());
}

#[test]
fn request_framing() {
    let m = request_message(7, 32768, 16384);
    assert_eq!(m.id, MESSAGE_REQUEST);
    let bytes = m.serialize().unwrap();
    assert_eq!(
        bytes,
        vec![
            0x00, 0x00, 0x00, 0x0D, 0x06, 0x00, 0x00, 0x00, 0x07, 0x00, 0x00, 0x80, 0x00, 0x00,
            0x00, 0x40, 0x00
        ]
    );
    let len = read_u32_be(&bytes, 0) as usize;
    assert_eq!(len, 13);
    let back = deserialize_message(&bytes[4..], len).unwrap();
    assert_eq!(back.id, MESSAGE_REQUEST);
    assert_eq!(parse_request(&back), Ok((7, 32768, 16384)));
}

#[test]
fn message_round_trip() {
    let m = Message::new_with_payload(42, vec![1, 2, 3]);
    let bytes = m.serialize().unwrap();
    assert_eq!(bytes, vec![0, 0, 0, 4, 42, 1, 2, 3]);
    let back = deserialize_message(&bytes[4..], 4).unwrap();
    assert_eq!(back.get_id(), 42);
    assert_eq!(back.get_payload(), vec![1, 2, 3]);
    let unchoke = Message::new(MESSAGE_UNCHOKE).serialize().unwrap();
    assert_eq!(unchoke, vec![0, 0, 0, 1, 1]);
}

#[test]
fn message_decode_errors() {
    assert_eq!(deserialize_message(&[1, 2], 0).unwrap_err(), Error::Protocol);
    assert_eq!(deserialize_message(&[1, 2], 3).unwrap_err(), Error::Protocol);
    let bad_have = Message::new_with_payload(MESSAGE_HAVE, vec![0, 0, 1]);
    assert_eq!(parse_have(&bad_have), Err(Error::Protocol));
    let not_have = Message::new_with_payload(MESSAGE_PIECE, vec![0, 0, 0, 1]);
    assert_eq!(parse_have(&not_have), Err(Error::Protocol));
    let short_piece = Message::new_with_payload(MESSAGE_PIECE, vec![0; 7]);
    assert_eq!(parse_piece(&short_piece).unwrap_err(), Error::Protocol);
    let short_request = Message::new_with_payload(MESSAGE_REQUEST, vec![0; 11]);
    assert_eq!(parse_request(&short_request), Err(Error::Protocol));
}

#[test]
fn typed_round_trips() {
    let have = have_message(0x0102_0304);
    assert_eq!(have.payload, vec![1, 2, 3, 4]);
    assert_eq!(parse_have(&have), Ok(0x0102_0304));
    let piece = piece_message(3, 16384, &[9, 8, 7]);
    let (index, begin, block) = parse_piece(&piece).unwrap();
    assert_eq!((index, begin, block), (3, 16384, vec![9, 8, 7]));
    let mut out = vec![0xAA];
    write_u32_be(&mut out, 0xDEAD_BEEF);
    assert_eq!(out, vec![0xAA, 0xDE, 0xAD, 0xBE, 0xEF]);
    assert_eq!(read_u32_be(&out, 1), 0xDEAD_BEEF);
}
