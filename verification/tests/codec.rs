use bittorrent_core::codec::{CodecError, MessageFramer, MAX_FRAME};
use bittorrent_core::message::{Message, MessageTag};

fn frame(tag: u8, payload: &[u8]) -> Vec<u8> {
    let len = (payload.len() + 1) as u32;
    let mut out = Vec::new();
    out.extend_from_slice(&len.to_be_bytes());
    out.push(tag);
    out.extend_from_slice(payload);
    out
}

#[test]
fn test_encode_exact_bytes() {
    let mut framer = MessageFramer;
    let mut dst: Vec<u8> = Vec::new();
    let msg = Message { tag: MessageTag::Have, payload: vec![0, 0, 0, 5] };
    assert!(framer.encode(&msg, &mut dst).is_ok());
    assert_eq!(dst, vec![0, 0, 0, 5, 4, 0, 0, 0, 5]);
}

#[test]
fn test_round_trip() {
    let mut framer = MessageFramer;
    let mut buf: Vec<u8> = Vec::new();
    let msg = Message { tag: MessageTag::Request, payload: vec![1, 2, 3, 4, 5] };
    assert!(framer.encode(&msg, &mut buf).is_ok());
    let decoded = framer.decode(&mut buf).unwrap().unwrap();
    assert_eq!(decoded.tag, MessageTag::Request);
    assert_eq!(decoded.payload, vec![1, 2, 3, 4, 5]);
    assert!(buf.is_empty());
}

#[test]
fn test_heartbeat_in_stream() {
    // encode(Unchoke) || u32_be(0) || encode(Piece payload) decodes to the
    // two messages; the heartbeat never surfaces.
    let mut framer = MessageFramer;
    let mut buf = frame(1, &[]);
    buf.extend_from_slice(&[0, 0, 0, 0]);
    buf.extend_from_slice(&frame(7, &[9, 9]));
    let m1 = framer.decode(&mut buf).unwrap().unwrap();
    assert_eq!(m1.tag, MessageTag::Unchoke);
    assert!(m1.payload.is_empty());
    let m2 = framer.decode(&mut buf).unwrap().unwrap();
    assert_eq!(m2.tag, MessageTag::Piece);
    assert_eq!(m2.payload, vec![9, 9]);
    assert!(buf.is_empty());
}

#[test]
fn test_leading_heartbeats_dropped() {
    let mut framer = MessageFramer;
    let mut buf = vec![0, 0, 0, 0, 0, 0, 0, 0];
    buf.extend_from_slice(&frame(0, &[]));
    let m = framer.decode(&mut buf).unwrap().unwrap();
    assert_eq!(m.tag, MessageTag::Choke);
    assert!(buf.is_empty());
}

#[test]
fn test_oversize_frame_rejected() {
    // A frame claiming 0xffffffff bytes fails without draining the buffer
    // beyond the faulty length prefix.
    let mut framer = MessageFramer;
    let mut buf = vec![0xff, 0xff, 0xff, 0xff, 0x07, 1, 2, 3];
    let before = buf.clone();
    assert_eq!(framer.decode(&mut buf), Err(CodecError::InvalidFrame));
    assert_eq!(buf, before);
}

#[test]
fn test_oversize_boundary() {
    let mut framer = MessageFramer;
    // length 65537 = 0x00010001: one over the bound.
    let mut buf = vec![0x00, 0x01, 0x00, 0x01, 0x05];
    assert_eq!(framer.decode(&mut buf), Err(CodecError::InvalidFrame));
}

#[test]
fn test_unknown_tag_rejected() {
    let mut framer = MessageFramer;
    let mut buf = frame(9, &[1]);
    assert_eq!(framer.decode(&mut buf), Err(CodecError::InvalidTag));
}

#[test]
fn test_decode_needs_more_data() {
    let mut framer = MessageFramer;
    let mut buf = vec![0, 0, 0, 9, 7, 1];
    assert_eq!(framer.decode(&mut buf), Ok(None));
    // An oversize length with only four bytes buffered also waits for the
    // tag byte first.
    let mut short = vec![0xff, 0xff, 0xff, 0xff];
    assert_eq!(framer.decode(&mut short), Ok(None));
}

#[test]
fn test_encode_overlong_payload_refused() {
    let mut framer = MessageFramer;
    let mut dst: Vec<u8> = Vec::new();
    let msg = Message { tag: MessageTag::Piece, payload: vec![0u8; MAX_FRAME] };
    assert_eq!(framer.encode(&msg, &mut dst), Err(CodecError::InvalidFrame));
    assert!(dst.is_empty());
}

#[test]
fn test_encode_largest_payload_accepted() {
    let mut framer = MessageFramer;
    let mut dst: Vec<u8> = Vec::new();
    let msg = Message { tag: MessageTag::Piece, payload: vec![0u8; MAX_FRAME - 1] };
    assert!(framer.encode(&msg, &mut dst).is_ok());
    assert_eq!(dst.len(), 4 + MAX_FRAME);
}

#[test]
fn test_need_more_still_drains_heartbeats() {
    let mut framer = MessageFramer;
    let mut buf = vec![0, 0, 0, 0, 0, 0, 0, 9];
    assert_eq!(framer.decode(&mut buf), Ok(None));
    // The leading heartbeat is gone; the partial length prefix stays.
    assert_eq!(buf, vec![0, 0, 0, 9]);
}

#[test]
fn test_tag_bytes_round_trip() {
    let tags = [
        MessageTag::Choke,
        MessageTag::Unchoke,
        MessageTag::Interested,
        MessageTag::NotInterested,
        MessageTag::Have,
        MessageTag::Bitfield,
        MessageTag::Request,
        MessageTag::Piece,
        MessageTag::Cancel,
    ];
    for (i, tag) in tags.iter().enumerate() {
        assert_eq!(tag.to_byte(), i as u8);
        assert_eq!(MessageTag::from_byte(i as u8), Some(*tag));
    }
    assert_eq!(MessageTag::from_byte(9), None);
    assert_eq!(MessageTag::from_byte(255), None);
}
