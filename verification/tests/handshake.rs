use bittorrent_core::handshake::Handshake;

#[test]
fn test_handshake_layout() {
    let ih = vec![1u8; 20];
    let pid = b"00112233445566778899".to_vec();
    let h = Handshake::new(ih.clone(), pid.clone());
    let bytes = h.to_bytes();
    assert_eq!(bytes.len(), 68);
    assert_eq!(bytes[0], 19);
    assert_eq!(&bytes[1..20], b"BitTorrent protocol");
    assert_eq!(&bytes[20..28], &[0u8; 8]);
    assert_eq!(&bytes[28..48], &ih[..]);
    assert_eq!(&bytes[48..68], &pid[..]);
}

#[test]
fn test_handshake_round_trip() {
    let ih = (0u8..20).collect::<Vec<u8>>();
    let pid = (100u8..120).collect::<Vec<u8>>();
    let bytes = Handshake::new(ih.clone(), pid.clone()).to_bytes();
    let back = Handshake::from_bytes(&bytes).unwrap();
    assert_eq!(back.info_hash, ih);
    assert_eq!(back.peer_id, pid);
}

#[test]
fn test_handshake_rejects_bad_prefix() {
    let good = Handshake::new(vec![0u8; 20], vec![1u8; 20]).to_bytes();
    // Wrong length byte.
    let mut bad = good.clone();
    bad[0] = 18;
    assert!(Handshake::from_bytes(&bad).is_none());
    // Corrupted protocol literal.
    let mut bad = good.clone();
    bad[1] = b'b';
    assert!(Handshake::from_bytes(&bad).is_none());
    // Truncated.
    let bad = good[..67].to_vec();
    assert!(Handshake::from_bytes(&bad).is_none());
}
