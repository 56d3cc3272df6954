use bittorrent_core::message::{Message, MessageTag, Piece, Request};
use bittorrent_core::peers::{parse_compact_peers, peers_to_compact, Peer, Peers};
use bittorrent_core::session::{
    build_block_request, PeerState, PieceProgress, Session, SessionError, BLOCK_MAX,
};

#[test]
fn test_peer_state_initial_flags() {
    let s = PeerState::new();
    assert!(s.am_choking);
    assert!(!s.am_interested);
    assert!(s.peer_choking);
    assert!(!s.peer_interested);
}

#[test]
fn test_session_begin_interest() {
    let mut s = Session::new();
    let m = s.begin_interest();
    assert_eq!(m.tag, MessageTag::Interested);
    assert!(m.payload.is_empty());
    assert!(s.peer_state.am_interested);
    assert!(s.peer_state.peer_choking);
}

#[test]
fn test_session_choke_unchoke() {
    let mut s = Session::new();
    let mut prog = PieceProgress::new(0, 100);
    let unchoke = Message { tag: MessageTag::Unchoke, payload: vec![] };
    assert!(s.handle_message(&mut prog, &unchoke).is_ok());
    assert!(!s.peer_state.peer_choking);
    let choke = Message { tag: MessageTag::Choke, payload: vec![] };
    assert!(s.handle_message(&mut prog, &choke).is_ok());
    assert!(s.peer_state.peer_choking);
}

#[test]
fn test_session_bitfield_replaced() {
    let mut s = Session::new();
    let mut prog = PieceProgress::new(0, 100);
    let bf = Message { tag: MessageTag::Bitfield, payload: vec![0b1010_0000] };
    assert!(s.handle_message(&mut prog, &bf).is_ok());
    assert_eq!(s.bitfield, vec![0b1010_0000]);
    let bf2 = Message { tag: MessageTag::Bitfield, payload: vec![0xff, 0x01] };
    assert!(s.handle_message(&mut prog, &bf2).is_ok());
    assert_eq!(s.bitfield, vec![0xff, 0x01]);
}

#[test]
fn test_session_piece_appends_block() {
    let mut s = Session::new();
    let mut prog = PieceProgress::new(2, 10);
    // index 2, begin 0, then the block bytes.
    let mut payload = vec![0, 0, 0, 2, 0, 0, 0, 0];
    payload.extend_from_slice(&[9, 8, 7]);
    let piece = Message { tag: MessageTag::Piece, payload };
    assert!(s.handle_message(&mut prog, &piece).is_ok());
    assert_eq!(prog.received, vec![9, 8, 7]);
}

#[test]
fn test_session_short_piece_payload_rejected() {
    let mut s = Session::new();
    let mut prog = PieceProgress::new(0, 10);
    let piece = Message { tag: MessageTag::Piece, payload: vec![0, 0, 0] };
    assert_eq!(
        s.handle_message(&mut prog, &piece),
        Err(SessionError::BadPieceMessage)
    );
    assert!(prog.received.is_empty());
}

#[test]
fn test_peer_has_piece_bit_layout() {
    let mut s = Session::new();
    let mut prog = PieceProgress::new(0, 10);
    // Bits 0 and 10 set: high bit of byte 0, bit 2 of byte 1.
    let bf = Message { tag: MessageTag::Bitfield, payload: vec![0b1000_0000, 0b0010_0000] };
    assert!(s.handle_message(&mut prog, &bf).is_ok());
    assert!(s.peer_has_piece(0));
    assert!(!s.peer_has_piece(1));
    assert!(s.peer_has_piece(10));
    assert!(!s.peer_has_piece(15));
    // Beyond the bitfield counts as absent.
    assert!(!s.peer_has_piece(16));
    assert!(!s.peer_has_piece(1000));
}

#[test]
fn test_piece_progress_block_fifo() {
    // 20000 bytes split into 16384 + 3616: two blocks.
    let mut prog = PieceProgress::new(0, 20000);
    assert_eq!(prog.pending, vec![0, 1]);
    assert!(!prog.complete());
    assert_eq!(prog.next_block(), Some(0));
    // A failed request puts the block back at the tail.
    prog.requeue_block(0);
    assert_eq!(prog.next_block(), Some(1));
    assert_eq!(prog.next_block(), Some(0));
    assert_eq!(prog.next_block(), None);
}

#[test]
fn test_piece_progress_complete() {
    let mut prog = PieceProgress::new(0, 3);
    assert_eq!(prog.pending, vec![0]);
    assert_eq!(prog.next_block(), Some(0));
    assert!(!prog.complete());
    prog.received.extend_from_slice(&[1, 2, 3]);
    assert!(prog.complete());
}

#[test]
fn test_build_block_request_exact_bytes() {
    // piece 3 of 40000 bytes: blocks of 16384, 16384, 7232.
    let m = build_block_request(3, 1, 40000);
    assert_eq!(m.tag, MessageTag::Request);
    let mut expected: Vec<u8> = Vec::new();
    expected.extend_from_slice(&3u32.to_be_bytes());
    expected.extend_from_slice(&(BLOCK_MAX as u32).to_be_bytes());
    expected.extend_from_slice(&(BLOCK_MAX as u32).to_be_bytes());
    assert_eq!(m.payload, expected);
    let last = build_block_request(3, 2, 40000);
    let mut expected: Vec<u8> = Vec::new();
    expected.extend_from_slice(&3u32.to_be_bytes());
    expected.extend_from_slice(&(2 * BLOCK_MAX as u32).to_be_bytes());
    expected.extend_from_slice(&7232u32.to_be_bytes());
    assert_eq!(last.payload, expected);
}

#[test]
fn test_request_round_trip() {
    let r = Request::new(7, 16384, 1024);
    assert_eq!(r.index(), 7);
    assert_eq!(r.begin(), 16384);
    assert_eq!(r.length(), 1024);
    let bytes = r.to_bytes();
    assert_eq!(bytes.len(), 12);
    assert_eq!(&bytes[0..4], &7u32.to_be_bytes());
    assert_eq!(&bytes[4..8], &16384u32.to_be_bytes());
    assert_eq!(&bytes[8..12], &1024u32.to_be_bytes());
}

#[test]
fn test_piece_payload_view() {
    let mut payload = vec![0, 0, 0, 5, 0, 0, 64, 0];
    payload.extend_from_slice(&[1, 2, 3, 4]);
    let p = Piece::ref_from_bytes(&payload).unwrap();
    assert_eq!(p.index(), 5);
    assert_eq!(p.begin(), 16384);
    assert_eq!(p.block(), &vec![1, 2, 3, 4]);
    assert!(Piece::ref_from_bytes(&vec![0, 0, 0, 5, 0, 0, 0]).is_none());
}

#[test]
fn test_parse_compact_peers() {
    let bytes = vec![127, 0, 0, 1, 0x1f, 0x90, 10, 0, 0, 2, 0, 80];
    let peers = parse_compact_peers(&bytes).unwrap();
    assert_eq!(peers.0.len(), 2);
    assert_eq!(peers.0[0].ip, [127, 0, 0, 1]);
    assert_eq!(peers.0[0].port, 8080);
    assert_eq!(peers.0[1].ip, [10, 0, 0, 2]);
    assert_eq!(peers.0[1].port, 80);
    assert!(parse_compact_peers(&vec![1, 2, 3]).is_none());
}

#[test]
fn test_peers_compact_round_trip() {
    let peers = Peers(vec![Peer::new([192, 168, 1, 9], 51413), Peer::new([8, 8, 8, 8], 6881)]);
    let compact = peers_to_compact(&peers);
    assert_eq!(compact.len(), 12);
    let back = parse_compact_peers(&compact).unwrap();
    assert_eq!(back.0.len(), 2);
    assert_eq!(back.0[0].ip, peers.0[0].ip);
    assert_eq!(back.0[0].port, peers.0[0].port);
    assert_eq!(back.0[1].ip, peers.0[1].ip);
    assert_eq!(back.0[1].port, peers.0[1].port);
}
