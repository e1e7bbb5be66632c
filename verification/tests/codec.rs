use bittorrent::handshake::Handshake;
use bittorrent::wire::{Message, MessageFramer, MessageType, PieceRequest, PieceResponse, WireError};

fn all_types() -> Vec<MessageType> {
    vec![
        MessageType::Choke,
        MessageType::Unchoke,
        MessageType::Interested,
        MessageType::NotInterested,
        MessageType::Have,
        MessageType::Bitfield,
        MessageType::Request,
        MessageType::Piece,
        MessageType::Cancel,
    ]
}

#[test]
fn round_trip_every_tag() {
    let framer = MessageFramer;
    for typ in all_types() {
        let payload = vec![1u8, 2, 3, 4, 5];
        let mut wire: Vec<u8> = Vec::new();
        framer
            .encode(&Message { typ, payload: payload.clone() }, &mut wire)
            .unwrap();
        assert_eq!(wire.len(), 4 + 1 + payload.len());
        let msg = framer.decode(&mut wire).unwrap().unwrap();
        assert_eq!(msg.typ, typ);
        assert_eq!(msg.payload, payload);
        assert!(wire.is_empty());
    }
}

#[test]
fn round_trip_empty_payload() {
    let framer = MessageFramer;
    let mut wire: Vec<u8> = Vec::new();
    framer
        .encode(&Message { typ: MessageType::Unchoke, payload: Vec::new() }, &mut wire)
        .unwrap();
    assert_eq!(wire, vec![0, 0, 0, 1, 1]);
    let msg = framer.decode(&mut wire).unwrap().unwrap();
    assert_eq!(msg.typ, MessageType::Unchoke);
    assert!(msg.payload.is_empty());
}

#[test]
fn encode_rejects_over_length_payload() {
    let framer = MessageFramer;
    let mut wire: Vec<u8> = Vec::new();
    let payload = vec![0u8; 65536];
    let r = framer.encode(&Message { typ: MessageType::Piece, payload }, &mut wire);
    assert_eq!(r, Err(WireError::FrameTooLarge));
    assert!(wire.is_empty());
}

#[test]
fn decode_rejects_over_length_header() {
    let framer = MessageFramer;
    // Header declares 65537 bytes.
    let mut wire = vec![0x00u8, 0x01, 0x00, 0x01];
    assert!(matches!(framer.decode(&mut wire), Err(WireError::FrameTooLarge)));
}

#[test]
fn decode_rejects_unknown_tag() {
    let framer = MessageFramer;
    let mut wire = vec![0u8, 0, 0, 1, 9];
    assert!(matches!(framer.decode(&mut wire), Err(WireError::InvalidMessageType)));
}

#[test]
fn decode_needs_more_bytes() {
    let framer = MessageFramer;
    let mut wire = vec![0u8, 0, 0, 5, 4];
    let r = framer.decode(&mut wire).unwrap();
    assert!(r.is_none());
    assert_eq!(wire.len(), 5);
}

#[test]
fn keep_alive_frames_are_skipped() {
    let framer = MessageFramer;
    let mut wire: Vec<u8> = Vec::new();
    framer
        .encode(&Message { typ: MessageType::Have, payload: vec![0, 0, 0, 7] }, &mut wire)
        .unwrap();
    // A keep-alive between two normal frames.
    wire.extend_from_slice(&[0, 0, 0, 0]);
    framer
        .encode(&Message { typ: MessageType::Interested, payload: Vec::new() }, &mut wire)
        .unwrap();
    let first = framer.decode(&mut wire).unwrap().unwrap();
    assert_eq!(first.typ, MessageType::Have);
    assert_eq!(first.payload, vec![0, 0, 0, 7]);
    let second = framer.decode(&mut wire).unwrap().unwrap();
    assert_eq!(second.typ, MessageType::Interested);
    assert!(second.payload.is_empty());
    assert!(framer.decode(&mut wire).unwrap().is_none());
    assert!(wire.is_empty());
}

#[test]
fn message_type_bytes() {
    for (i, typ) in all_types().into_iter().enumerate() {
        assert_eq!(typ.to_byte(), i as u8);
        assert_eq!(MessageType::from_byte(i as u8), Some(typ));
    }
    assert_eq!(MessageType::from_byte(9), None);
}

#[test]
fn piece_request_layout() {
    let req = PieceRequest::new(1, 32768, 16384);
    assert_eq!(req.index(), 1);
    assert_eq!(req.begin(), 32768);
    assert_eq!(req.length(), 16384);
    let bytes = req.to_bytes();
    assert_eq!(
        bytes,
        vec![0, 0, 0, 1, 0, 0, 0x80, 0, 0, 0, 0x40, 0]
    );
}

#[test]
fn piece_response_parsing() {
    let mut payload = vec![0u8, 0, 0, 2, 0, 0, 0x40, 0];
    payload.extend_from_slice(&[9, 8, 7]);
    let resp = PieceResponse::from_bytes(&payload).unwrap();
    assert_eq!(resp.index(), 2);
    assert_eq!(resp.begin(), 16384);
    assert_eq!(resp.block(), &vec![9, 8, 7]);
    let short = vec![0u8; 7];
    assert!(PieceResponse::from_bytes(&short).is_none());
}

#[test]
fn handshake_round_trip() {
    let info_hash = [7u8; 20];
    let peer_id = *b"00112233445566778899";
    let hs = Handshake::new(info_hash, peer_id);
    let bytes = hs.to_bytes();
    assert_eq!(bytes.len(), 68);
    assert_eq!(bytes[0], 19);
    assert_eq!(&bytes[1..20], b"BitTorrent protocol");
    let parsed = Handshake::parse(&bytes).unwrap();
    assert_eq!(parsed.info_hash, info_hash);
    assert_eq!(parsed.peer_id, peer_id);
    assert_eq!(parsed.length, 19);
}

#[test]
fn handshake_rejects_bad_frames() {
    let hs = Handshake::new([7u8; 20], [1u8; 20]);
    let mut bytes = hs.to_bytes();
    bytes[0] = 18;
    assert!(Handshake::parse(&bytes).is_none());
    let mut bytes2 = hs.to_bytes();
    bytes2[1] = b'b';
    assert!(Handshake::parse(&bytes2).is_none());
    let short = vec![19u8; 67];
    assert!(Handshake::parse(&short).is_none());
}
