use bittorrent::assembly::{AssemblyError, PieceAssembly};
use bittorrent::bitfield::Bitfield;
use bittorrent::dot_torrent::{DotTorrent, Hashes, Info, Key};
use bittorrent::download::{finish_piece, DownloadError};
use bittorrent::scheduler::{build_pieces, pop_rarest};
use bittorrent::session::{AwaitStep, PeerSession, SessionError, SessionPhase};
use bittorrent::wire::{Message, MessageType};
use sha1::{Digest, Sha1};

fn single_file_torrent(content: &[u8], piece_length: usize) -> DotTorrent {
    let n_pieces = (content.len() + piece_length - 1) / piece_length;
    let mut hashes: Vec<[u8; 20]> = Vec::new();
    for i in 0..n_pieces {
        let start = i * piece_length;
        let end = (start + piece_length).min(content.len());
        let digest: [u8; 20] = Sha1::digest(&content[start..end]).into();
        hashes.push(digest);
    }
    DotTorrent {
        announce: String::from("http://127.0.0.1:8000/announce"),
        info: Info {
            name: String::from("content"),
            piece_length,
            pieces: Hashes(hashes),
            key: Key::SingleFile { length: content.len() },
        },
    }
}

fn piece_message(index: u32, begin: u32, block: &[u8]) -> Message {
    let mut payload = Vec::new();
    payload.extend_from_slice(&index.to_be_bytes());
    payload.extend_from_slice(&begin.to_be_bytes());
    payload.extend_from_slice(block);
    Message { typ: MessageType::Piece, payload }
}

fn unchoke() -> Message {
    Message { typ: MessageType::Unchoke, payload: Vec::new() }
}

fn choke() -> Message {
    Message { typ: MessageType::Choke, payload: Vec::new() }
}

#[test]
fn tiny_single_file_download() {
    let content = [10u8, 20, 30];
    let dt = single_file_torrent(&content, 32768);
    assert!(dt.validate());
    assert_eq!(dt.length(), 3);

    let peers = vec![Bitfield::from_payload(vec![0b1000_0000], 1).unwrap()];
    let (mut available, unavailable) = build_pieces(&dt, &peers);
    assert_eq!(available.len(), 1);
    assert!(unavailable.is_empty());
    let piece = pop_rarest(&mut available).unwrap();
    assert_eq!(piece.index(), 0);
    assert_eq!(piece.length(), 3);
    assert_eq!(piece.peers(), &vec![0]);

    let mut session = PeerSession::new(Bitfield::from_payload(vec![0b1000_0000], 1).unwrap());
    assert_eq!(session.begin_piece(0, 3, 1), Ok(true));
    session.on_message_waiting(&unchoke()).unwrap();
    let req = session.next_block(Some(0)).unwrap();
    assert_eq!((req.index(), req.begin(), req.length()), (0, 0, 3));

    let step = session.on_message_awaiting(&piece_message(0, 0, &content)).unwrap();
    let resp = match step {
        AwaitStep::Received(resp) => resp,
        other => panic!("expected the block, got {:?}", other),
    };

    let mut assembly = PieceAssembly::new(3);
    assembly.write_block(resp.begin() as usize, resp.block()).unwrap();
    assert!(assembly.complete());

    let mut out = vec![0u8; 3];
    finish_piece(&mut out, 0, 32768, &assembly, &piece.hash()).unwrap();
    assert_eq!(out, content.to_vec());
}

#[test]
fn last_block_of_short_piece_is_truncated() {
    // Two pieces: the second is 5 bytes, one block of length 5.
    let content = vec![7u8; 32768 + 5];
    let dt = single_file_torrent(&content, 32768);
    assert!(dt.validate());

    let mut session = PeerSession::new(Bitfield::from_payload(vec![0b1100_0000], 2).unwrap());
    assert_eq!(session.begin_piece(1, 5, 1), Ok(true));
    session.on_message_waiting(&unchoke()).unwrap();
    let req = session.next_block(Some(0)).unwrap();
    assert_eq!(req.index(), 1);
    assert_eq!(req.begin(), 0);
    assert_eq!(req.length(), 5);
}

#[test]
fn choke_mid_piece_requeues_the_block() {
    // One piece of two blocks: 16384 bytes and 4 bytes.
    let piece_size = 16384 + 4;
    let content: Vec<u8> = (0..piece_size).map(|i| (i % 251) as u8).collect();
    let dt = single_file_torrent(&content, 32768);
    assert!(dt.validate());
    let expected: [u8; 20] = Sha1::digest(&content).into();

    let mut session = PeerSession::new(Bitfield::from_payload(vec![0b1000_0000], 1).unwrap());
    assert_eq!(session.begin_piece(0, piece_size, 2), Ok(true));
    session.on_message_waiting(&unchoke()).unwrap();

    let mut assembly = PieceAssembly::new(piece_size);

    // Block 0 arrives normally.
    let req0 = session.next_block(Some(0)).unwrap();
    assert_eq!((req0.begin(), req0.length()), (0, 16384));
    let step = session
        .on_message_awaiting(&piece_message(0, 0, &content[..16384]))
        .unwrap();
    let resp0 = match step {
        AwaitStep::Received(resp) => resp,
        other => panic!("expected the block, got {:?}", other),
    };
    assembly.write_block(resp0.begin() as usize, resp0.block()).unwrap();

    // The request for block 1 is answered with a choke: the block index
    // comes back exactly once and the session waits to be unchoked.
    let req1 = session.next_block(Some(1)).unwrap();
    assert_eq!((req1.begin(), req1.length()), (16384, 4));
    let step = session.on_message_awaiting(&choke()).unwrap();
    match step {
        AwaitStep::Requeued(block_i) => assert_eq!(block_i, 1),
        other => panic!("expected a requeue, got {:?}", other),
    }
    assert_eq!(session.current_phase(), SessionPhase::WaitUnchoke);

    // After an unchoke the same session picks the block up again.
    session.on_message_waiting(&unchoke()).unwrap();
    let req1_again = session.next_block(Some(1)).unwrap();
    assert_eq!((req1_again.begin(), req1_again.length()), (16384, 4));
    let step = session
        .on_message_awaiting(&piece_message(0, 16384, &content[16384..]))
        .unwrap();
    let resp1 = match step {
        AwaitStep::Received(resp) => resp,
        other => panic!("expected the block, got {:?}", other),
    };
    assembly.write_block(resp1.begin() as usize, resp1.block()).unwrap();
    assert!(assembly.complete());

    let mut out = vec![0u8; piece_size];
    finish_piece(&mut out, 0, 32768, &assembly, &expected).unwrap();
    assert_eq!(out, content);
}

#[test]
fn bitfield_after_handshake_is_fatal() {
    let mut session = PeerSession::new(Bitfield::from_payload(vec![0b1000_0000], 1).unwrap());
    let msg = Message { typ: MessageType::Bitfield, payload: vec![0b1000_0000] };
    assert_eq!(
        session.on_message_waiting(&msg),
        Err(SessionError::BitfieldAfterHandshake)
    );
    // Mid-request it is just as fatal.
    let mut session = PeerSession::new(Bitfield::from_payload(vec![0b1000_0000], 1).unwrap());
    session.begin_piece(0, 3, 1).unwrap();
    session.on_message_waiting(&unchoke()).unwrap();
    session.next_block(Some(0)).unwrap();
    match session.on_message_awaiting(&msg) {
        Err(SessionError::BitfieldAfterHandshake) => {},
        other => panic!("expected a protocol fault, got {:?}", other),
    }
}

#[test]
fn hash_mismatch_aborts_citing_the_piece() {
    let content = [10u8, 20, 30];
    let dt = single_file_torrent(&content, 32768);
    let expected = dt.info.pieces.0[0];
    let mut assembly = PieceAssembly::new(3);
    // All blocks arrive, but one byte is corrupted.
    assembly.write_block(0, &vec![10u8, 99, 30]).unwrap();
    assert!(assembly.complete());
    let mut out = vec![0u8; 3];
    let r = finish_piece(&mut out, 0, 32768, &assembly, &expected);
    assert_eq!(r, Err(DownloadError::HashMismatch { piece_i: 0 }));
    assert_eq!(out, vec![0u8; 3]);
}

#[test]
fn protocol_faults_retire_the_session() {
    let bf = || Bitfield::from_payload(vec![0b1000_0000], 1).unwrap();
    // A second choke while already choked.
    let mut s = PeerSession::new(bf());
    assert_eq!(s.on_message_waiting(&choke()), Err(SessionError::DoubleChoke));
    // An unchoke with a payload.
    let mut s = PeerSession::new(bf());
    let bad = Message { typ: MessageType::Unchoke, payload: vec![1] };
    assert_eq!(s.on_message_waiting(&bad), Err(SessionError::UnchokePayload));
    // A second unchoke while already unchoked.
    let mut s = PeerSession::new(bf());
    s.begin_piece(0, 3, 1).unwrap();
    s.on_message_waiting(&unchoke()).unwrap();
    s.next_block(Some(0)).unwrap();
    match s.on_message_awaiting(&unchoke()) {
        Err(SessionError::DoubleUnchoke) => {},
        other => panic!("expected a double unchoke, got {:?}", other),
    }
    // A piece payload shorter than its lead.
    let mut s = PeerSession::new(bf());
    s.begin_piece(0, 3, 1).unwrap();
    s.on_message_waiting(&unchoke()).unwrap();
    s.next_block(Some(0)).unwrap();
    let short = Message { typ: MessageType::Piece, payload: vec![0, 0, 0] };
    match s.on_message_awaiting(&short) {
        Err(SessionError::ShortPiece) => {},
        other => panic!("expected a short piece fault, got {:?}", other),
    }
    // The matching block with the wrong number of bytes.
    let mut s = PeerSession::new(bf());
    s.begin_piece(0, 3, 1).unwrap();
    s.on_message_waiting(&unchoke()).unwrap();
    s.next_block(Some(0)).unwrap();
    match s.on_message_awaiting(&piece_message(0, 0, &[1, 2])) {
        Err(SessionError::WrongBlockLen) => {},
        other => panic!("expected a length fault, got {:?}", other),
    }
    // A Have message that is not four bytes.
    let mut s = PeerSession::new(bf());
    let bad_have = Message { typ: MessageType::Have, payload: vec![0, 0, 0] };
    assert_eq!(s.on_message_waiting(&bad_have), Err(SessionError::BadHave));
    // Asked for a piece the remote does not have.
    let mut s = PeerSession::new(bf());
    assert_eq!(s.begin_piece(5, 3, 1), Err(SessionError::MissingPiece));
    // A choke with a payload.
    let mut s = PeerSession::new(bf());
    s.begin_piece(0, 3, 1).unwrap();
    s.on_message_waiting(&unchoke()).unwrap();
    s.next_block(Some(0)).unwrap();
    let bad_choke = Message { typ: MessageType::Choke, payload: vec![1] };
    match s.on_message_awaiting(&bad_choke) {
        Err(SessionError::ChokePayload) => {},
        other => panic!("expected a choke payload fault, got {:?}", other),
    }
}

#[test]
fn assembly_refuses_stray_blocks() {
    let mut assembly = PieceAssembly::new(16384 + 4);
    // An offset off the block grid.
    assert_eq!(assembly.write_block(5, &vec![0u8; 16384]), Err(AssemblyError::BadOffset));
    // An offset past the last block.
    assert_eq!(
        assembly.write_block(2 * 16384, &vec![0u8; 4]),
        Err(AssemblyError::BadOffset)
    );
    // The right offset with the wrong number of bytes.
    assert_eq!(assembly.write_block(16384, &vec![0u8; 5]), Err(AssemblyError::BadLength));
    assert_eq!(assembly.received(), 0);
}

#[test]
fn have_updates_the_remote_bitfield() {
    let mut session = PeerSession::new(Bitfield::from_payload(vec![0b1000_0000], 3).unwrap());
    assert!(!session.has_piece(2));
    let have = Message { typ: MessageType::Have, payload: vec![0, 0, 0, 2] };
    session.on_message_waiting(&have).unwrap();
    assert!(session.has_piece(2));
    assert!(session.has_piece(0));
    assert!(!session.has_piece(1));
}

#[test]
fn unrelated_piece_is_discarded() {
    let mut session = PeerSession::new(Bitfield::from_payload(vec![0b1100_0000], 2).unwrap());
    session.begin_piece(0, 3, 1).unwrap();
    session.on_message_waiting(&unchoke()).unwrap();
    session.next_block(Some(0)).unwrap();
    // A block of another piece arrives: it belongs to prior work.
    let step = session.on_message_awaiting(&piece_message(1, 0, &[1, 2, 3])).unwrap();
    match step {
        AwaitStep::Ignored => {},
        other => panic!("expected a discard, got {:?}", other),
    }
    // The session still awaits its own block.
    match session.current_phase() {
        SessionPhase::AwaitPiece { block_i } => assert_eq!(block_i, 0),
        other => panic!("expected an outstanding request, got {:?}", other),
    }
}

#[test]
fn duplicate_block_is_counted_once() {
    let mut assembly = PieceAssembly::new(5);
    assembly.write_block(0, &vec![1, 2, 3, 4, 5]).unwrap();
    assert_eq!(assembly.received(), 5);
    assembly.write_block(0, &vec![1, 2, 3, 4, 5]).unwrap();
    assert_eq!(assembly.received(), 5);
    assert!(assembly.complete());
    assert_eq!(assembly.bytes(), &vec![1, 2, 3, 4, 5]);
}

#[test]
fn rarest_piece_first_with_deterministic_ties() {
    // Three one-byte pieces; peer 0 has pieces 0 and 1, peer 1 has 0 and 2.
    let content = [1u8, 2, 3];
    let dt = single_file_torrent(&content, 1);
    assert!(dt.validate());
    let peers = vec![
        Bitfield::from_payload(vec![0b1100_0000], 3).unwrap(),
        Bitfield::from_payload(vec![0b1010_0000], 3).unwrap(),
    ];
    let (mut available, unavailable) = build_pieces(&dt, &peers);
    assert!(unavailable.is_empty());
    assert_eq!(available.len(), 3);
    // Pieces 1 and 2 are equally rare; the provider lists break the tie.
    let first = pop_rarest(&mut available).unwrap();
    assert_eq!(first.index(), 1);
    assert_eq!(first.peers(), &vec![0]);
    let second = pop_rarest(&mut available).unwrap();
    assert_eq!(second.index(), 2);
    assert_eq!(second.peers(), &vec![1]);
    let third = pop_rarest(&mut available).unwrap();
    assert_eq!(third.index(), 0);
    assert_eq!(third.peers(), &vec![0, 1]);
    assert!(pop_rarest(&mut available).is_none());
}

#[test]
fn pieces_without_providers_are_parted_off() {
    let content = [1u8, 2, 3];
    let dt = single_file_torrent(&content, 1);
    let peers = vec![Bitfield::from_payload(vec![0b0100_0000], 3).unwrap()];
    let (available, unavailable) = build_pieces(&dt, &peers);
    assert_eq!(available.len(), 1);
    assert_eq!(available[0].index(), 1);
    assert_eq!(unavailable.len(), 2);
}
