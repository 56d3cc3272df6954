use bittorrent_core::bencode::{
    decode_bencoded_value, decode_torrent, encode_bencoded_value, Bencode, BencodeError,
};

fn decode_all(s: &[u8]) -> (Bencode, usize) {
    decode_bencoded_value(&s.to_vec(), 0).unwrap()
}

fn reencode(v: &Bencode) -> Vec<u8> {
    let mut out = Vec::new();
    encode_bencoded_value(v, &mut out);
    out
}

#[test]
fn test_decode_integer() {
    let (v, end) = decode_all(b"i52e");
    assert_eq!(end, 4);
    assert!(matches!(v, Bencode::Int(52)));
}

#[test]
fn test_decode_negative_integer() {
    let (v, _) = decode_all(b"i-52e");
    assert!(matches!(v, Bencode::Int(-52)));
}

#[test]
fn test_decode_zero() {
    let (v, _) = decode_all(b"i0e");
    assert!(matches!(v, Bencode::Int(0)));
}

#[test]
fn test_decode_byte_string() {
    let (v, end) = decode_all(b"5:hello");
    assert_eq!(end, 7);
    match v {
        Bencode::Bytes(b) => assert_eq!(b, b"hello".to_vec()),
        _ => panic!("expected a byte string"),
    }
}

#[test]
fn test_decode_list() {
    let (v, end) = decode_all(b"l5:helloi52ee");
    assert_eq!(end, 13);
    match v {
        Bencode::List(items) => {
            assert_eq!(items.len(), 2);
            assert!(matches!(items[1], Bencode::Int(52)));
        },
        _ => panic!("expected a list"),
    }
}

#[test]
fn test_decode_dict() {
    let (v, _) = decode_all(b"d3:foo3:bar5:helloi52ee");
    match v {
        Bencode::Dict(entries) => {
            assert_eq!(entries.len(), 2);
            assert_eq!(entries[0].0, b"foo".to_vec());
            assert!(matches!(entries[1].1, Bencode::Int(52)));
        },
        _ => panic!("expected a dictionary"),
    }
}

#[test]
fn test_decode_consumes_prefix_only() {
    let input = b"i3etrailing".to_vec();
    let (v, end) = decode_bencoded_value(&input, 0).unwrap();
    assert!(matches!(v, Bencode::Int(3)));
    assert_eq!(end, 3);
}

#[test]
fn test_decode_malformed_inputs() {
    for bad in [
        &b""[..],
        b"x",
        b"i-0e",
        b"i03e",
        b"ie",
        b"i52",
        b"3:ab",
        b"l5:hello",
        b"d3:fooi1e",
        b"d i1e i2e e",
    ] {
        assert_eq!(
            decode_bencoded_value(&bad.to_vec(), 0).err(),
            Some(BencodeError::Malformed),
            "input {:?} should be refused",
            bad
        );
    }
}

#[test]
fn test_dict_key_must_be_string() {
    assert!(decode_bencoded_value(&b"di1ei2ee".to_vec(), 0).is_err());
}

#[test]
fn test_encode_decode_round_trip() {
    for src in [
        &b"i52e"[..],
        b"i-1e",
        b"i0e",
        b"0:",
        b"5:hello",
        b"le",
        b"de",
        b"l5:helloi52ee",
        b"d3:foo3:bar5:helloi52ee",
        b"d4:infod6:lengthi16384e4:name5:a.binee",
    ] {
        let (v, end) = decode_all(src);
        assert_eq!(end, src.len());
        assert_eq!(reencode(&v), src.to_vec(), "round trip of {:?}", src);
    }
}

#[test]
fn test_encode_int_extremes() {
    let mut out = Vec::new();
    encode_bencoded_value(&Bencode::Int(i64::MIN), &mut out);
    assert_eq!(out, b"i-9223372036854775808e".to_vec());
    let (v, _) = decode_all(&out);
    assert!(matches!(v, Bencode::Int(i64::MIN)));
    let mut out = Vec::new();
    encode_bencoded_value(&Bencode::Int(i64::MAX), &mut out);
    assert_eq!(out, b"i9223372036854775807e".to_vec());
}

#[test]
fn test_decode_at_offset() {
    let input = b"XXi7e".to_vec();
    let (v, end) = decode_bencoded_value(&input, 2).unwrap();
    assert!(matches!(v, Bencode::Int(7)));
    assert_eq!(end, 5);
}

#[test]
fn test_decode_nested_structures() {
    let src = b"d4:listl i0e 2:ok e3:numi-9ee".to_vec();
    // Spaces are not bencode: build the real input without them.
    let src: Vec<u8> = src.into_iter().filter(|b| *b != b' ').collect();
    let (v, end) = decode_bencoded_value(&src, 0).unwrap();
    assert_eq!(end, src.len());
    assert_eq!(reencode(&v), src);
    match v {
        Bencode::Dict(entries) => {
            assert_eq!(entries.len(), 2);
            assert!(matches!(entries[0].1, Bencode::List(_)));
            assert!(matches!(entries[1].1, Bencode::Int(-9)));
        },
        _ => panic!("expected a dictionary"),
    }
}

#[test]
fn test_decode_torrent_stream() {
    let vs = decode_torrent(&b"i1ei2e3:abc".to_vec()).unwrap();
    assert_eq!(vs.len(), 3);
    assert!(matches!(vs[0], Bencode::Int(1)));
    assert!(matches!(vs[1], Bencode::Int(2)));
    assert!(matches!(vs[2], Bencode::Bytes(_)));
    assert!(decode_torrent(&b"i1ex".to_vec()).is_err());
    assert_eq!(decode_torrent(&b"".to_vec()).unwrap().len(), 0);
}
