use bittorrent::announce::{parse_hex, parse_query, percent_decode, QueryError};
use bittorrent::tracker::{
    build_announce_url, parse_peer_list, parse_tracker_error, parse_tracker_response, url_encode,
    HeartbeatState, PeerAddr, TrackerError, TrackerRequest,
};

#[test]
fn compact_peer_list_parses() {
    let bytes = vec![0x7F, 0x00, 0x00, 0x01, 0x1A, 0xE1, 0x0A, 0x00, 0x00, 0x01, 0x1A, 0xE2];
    let pl = parse_peer_list(&bytes).unwrap();
    assert_eq!(
        pl.0,
        vec![
            PeerAddr { a: 127, b: 0, c: 0, d: 1, port: 6881 },
            PeerAddr { a: 10, b: 0, c: 0, d: 1, port: 6882 },
        ]
    );
}

#[test]
fn ragged_peer_list_is_refused() {
    let bytes = vec![0x7F, 0x00, 0x00, 0x01, 0x1A];
    assert!(matches!(parse_peer_list(&bytes), Err(TrackerError::BadPeerList)));
}

#[test]
fn tracker_response_parses() {
    let mut data = b"d8:intervali1800e5:peers12:".to_vec();
    data.extend_from_slice(&[0x7F, 0, 0, 1, 0x1A, 0xE1, 10, 0, 0, 1, 0x1A, 0xE2]);
    data.push(b'e');
    let resp = parse_tracker_response(&data).unwrap();
    assert_eq!(resp.interval, 1800);
    assert_eq!(resp.peers.0.len(), 2);
    assert_eq!(resp.peers.0[0], PeerAddr { a: 127, b: 0, c: 0, d: 1, port: 6881 });
}

#[test]
fn tracker_response_with_extra_keys_parses() {
    // Unknown entries before, between and after the two required keys.
    let mut data = b"d8:completei3e8:intervali900e4:note2:ok5:peers6:".to_vec();
    data.extend_from_slice(&[127, 0, 0, 1, 0x1A, 0xE1]);
    data.extend_from_slice(b"10:incompletei7ee");
    let resp = parse_tracker_response(&data).unwrap();
    assert_eq!(resp.interval, 900);
    assert_eq!(resp.peers.0, vec![PeerAddr { a: 127, b: 0, c: 0, d: 1, port: 6881 }]);
}

#[test]
fn tracker_response_duplicate_or_mistyped_keys_are_refused() {
    // The same key twice.
    let data = b"d8:intervali1e8:intervali2e5:peers0:e".to_vec();
    assert!(matches!(parse_tracker_response(&data), Err(TrackerError::Malformed)));
    // A byte string where the interval's integer belongs.
    let data = b"d8:interval3:abc5:peers0:e".to_vec();
    assert!(matches!(parse_tracker_response(&data), Err(TrackerError::Malformed)));
    // An integer where the peer string belongs.
    let data = b"d8:intervali1800e5:peersi5ee".to_vec();
    assert!(matches!(parse_tracker_response(&data), Err(TrackerError::Malformed)));
    // A nested value under an unknown key is not taken.
    let data = b"d3:fooli1ee8:intervali1800e5:peers0:e".to_vec();
    assert!(matches!(parse_tracker_response(&data), Err(TrackerError::Malformed)));
}

#[test]
fn tracker_failure_with_extra_keys_parses() {
    let data = b"d5:flagsi1e6:reason2:no8:retry-ini60ee".to_vec();
    let err = parse_tracker_error(&data).unwrap();
    assert_eq!(err.reason, "no");
}

#[test]
fn malformed_tracker_responses_are_refused() {
    let cases: Vec<Vec<u8>> = vec![
        b"".to_vec(),
        b"le".to_vec(),
        b"d8:intervali1800e".to_vec(),
        b"d8:interval4:slow5:peers0:e".to_vec(),
        b"d8:intervali1800e5:peers3:abce".to_vec(),
        b"d8:intervali1800e5:peers0:eX".to_vec(),
    ];
    for data in cases {
        assert!(parse_tracker_response(&data).is_err(), "accepted {:?}", data);
    }
    // A peer string whose length is not a multiple of six is its own fault.
    let data = b"d8:intervali1800e5:peers3:abce".to_vec();
    assert!(matches!(parse_tracker_response(&data), Err(TrackerError::BadPeerList)));
}

#[test]
fn tracker_failure_reason_parses() {
    let data = b"d6:reason12:unregisterede".to_vec();
    let err = parse_tracker_error(&data).unwrap();
    assert_eq!(err.reason, "unregistered");
    assert!(parse_tracker_error(&b"d6:reason3:abc".to_vec()).is_err());
}

#[test]
fn url_encoding_is_one_escape_per_byte() {
    let mut id = [0u8; 20];
    for (i, b) in id.iter_mut().enumerate() {
        *b = (i * 13) as u8;
    }
    let enc = url_encode(&id);
    assert_eq!(enc.len(), 60);
    let expected: String = id.iter().map(|b| format!("%{:02x}", b)).collect();
    assert_eq!(enc, expected);
}

#[test]
fn announce_url_has_the_fixed_shape() {
    let req = TrackerRequest { port: 6881, uploaded: 0, downloaded: 0, left: 3, compact: 1 };
    let url = build_announce_url(
        &String::from("http://127.0.0.1:8000/announce"),
        &req,
        &[0x01; 20],
        &[0xFF; 20],
    );
    let mut expected = String::from(
        "http://127.0.0.1:8000/announce?port=6881&uploaded=0&downloaded=0&left=3&compact=1&info_hash=",
    );
    expected.push_str(&"%01".repeat(20));
    expected.push_str("&peer_id=");
    expected.push_str(&"%ff".repeat(20));
    assert_eq!(url, expected);
}

#[test]
fn heartbeat_backs_off_and_recovers() {
    let mut hb = HeartbeatState::new();
    assert_eq!(hb.step(None), 1);
    assert_eq!(hb.step(None), 2);
    assert_eq!(hb.step(None), 4);
    assert_eq!(hb.step(Some(1800)), 1800);
    assert_eq!(hb.backoff, 1);
    assert_eq!(hb.step(None), 1);
}

#[test]
fn percent_decoding_matches_the_handler() {
    let input = b"%41B%zz%4".to_vec();
    let dec = percent_decode(&input);
    assert_eq!(dec.bytes(), &vec![0x41, b'B', b'%', b'z', b'z', b'%', b'4']);
    assert_eq!(parse_hex(b'a', b'F'), Some(0xAF));
    assert_eq!(parse_hex(b'g', b'0'), None);
}

#[test]
fn announce_query_parses() {
    let mut query = b"info_hash=".to_vec();
    query.extend_from_slice("%01".repeat(20).as_bytes());
    query.extend_from_slice(b"&peer_id=00112233445566778899");
    query.extend_from_slice(b"&port=6881&uploaded=10&downloaded=20&left=30&compact=1");
    let params = parse_query(&query).unwrap();
    assert_eq!(params.info_hash, [1u8; 20]);
    assert_eq!(&params.peer_id, b"00112233445566778899");
    assert_eq!(params.port, 6881);
    assert_eq!(params.uploaded, 10);
    assert_eq!(params.downloaded, 20);
    assert_eq!(params.left, 30);
    assert_eq!(params.compact, 1);
}

#[test]
fn announce_query_faults() {
    // An unknown key.
    let q = b"foo=1".to_vec();
    assert!(matches!(parse_query(&q), Err(QueryError::UnknownKey)));
    // A pair without a value.
    let q = b"port".to_vec();
    assert!(matches!(parse_query(&q), Err(QueryError::MissingValue)));
    // A port out of range.
    let q = b"port=99999".to_vec();
    assert!(matches!(parse_query(&q), Err(QueryError::InvalidValue)));
    // An id that does not decode to 20 bytes.
    let q = b"info_hash=abc".to_vec();
    assert!(matches!(parse_query(&q), Err(QueryError::InvalidValue)));
    // A key that never appears.
    let mut q = b"info_hash=".to_vec();
    q.extend_from_slice("%01".repeat(20).as_bytes());
    assert!(matches!(parse_query(&q), Err(QueryError::MissingParam)));
}

#[test]
fn later_pairs_overwrite_earlier_ones() {
    let mut query = b"info_hash=".to_vec();
    query.extend_from_slice("%01".repeat(20).as_bytes());
    query.extend_from_slice(b"&peer_id=00112233445566778899");
    query.extend_from_slice(b"&port=1&port=2&uploaded=0&downloaded=0&left=0&compact=1");
    let params = parse_query(&query).unwrap();
    assert_eq!(params.port, 2);
}
