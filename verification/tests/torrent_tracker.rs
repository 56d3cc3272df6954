use bittorrent_core::bencode::decode_bencoded_value;
use bittorrent_core::torrent::{
    get_piece_size, info_bytes, split_piece_hashes, File, Info, Keys, Torrent, TorrentFile,
};
use bittorrent_core::tracker::{
    build_tracker_url, tracker_response_of_dict, urlencode, TrackerRequest,
};
use bittorrent_core::bencode::Bencode;
use sha1::{Digest, Sha1};

fn sha1_of(data: &[u8]) -> Vec<u8> {
    let mut h = Sha1::new();
    h.update(data);
    h.finalize().as_slice().to_vec()
}

fn single_file_info(name: &str, plength: usize, length: usize, hashes: Vec<Vec<u8>>) -> Info {
    Info {
        name: name.to_string(),
        plength,
        pieces: hashes,
        keys: Keys::SingleFile { length },
    }
}

#[test]
fn test_calculate_length_single() {
    let info = single_file_info("a.bin", 16384, 16384, vec![vec![0u8; 20]]);
    assert_eq!(info.calculate_length(), 16384);
}

#[test]
fn test_calculate_length_multi() {
    let info = Info {
        name: "dir".to_string(),
        plength: 4,
        pieces: vec![vec![0u8; 20]; 3],
        keys: Keys::MultiFile {
            files: vec![
                File { length: 5, path: vec!["a".to_string()] },
                File { length: 7, path: vec!["sub".to_string(), "b".to_string()] },
            ],
        },
    };
    assert_eq!(info.calculate_length(), 12);
}

#[test]
fn test_piece_sizes_unaligned_tail() {
    // piece_length 16384, length 20000: piece 0 is 16384, piece 1 is 3616.
    let info = single_file_info("x", 16384, 20000, vec![vec![0u8; 20], vec![1u8; 20]]);
    assert_eq!(get_piece_size(0, &info), 16384);
    assert_eq!(get_piece_size(1, &info), 3616);
}

#[test]
fn test_piece_sizes_aligned() {
    let info = single_file_info("x", 16384, 32768, vec![vec![0u8; 20], vec![1u8; 20]]);
    assert_eq!(get_piece_size(0, &info), 16384);
    assert_eq!(get_piece_size(1, &info), 16384);
}

#[test]
fn test_info_bytes_canonical_form() {
    let digest = sha1_of(&[0u8; 16384]);
    let info = single_file_info("a.bin", 16384, 16384, vec![digest.clone()]);
    let mut expected: Vec<u8> = Vec::new();
    expected.extend_from_slice(b"d6:lengthi16384e4:name5:a.bin12:piece lengthi16384e6:pieces20:");
    expected.extend_from_slice(&digest);
    expected.extend_from_slice(b"e");
    assert_eq!(info_bytes(&info), expected);
}

#[test]
fn test_info_hash_matches_manual_digest() {
    let digest = sha1_of(b"piece data here!");
    let info = single_file_info("a.bin", 16, 16, vec![digest]);
    let tf = TorrentFile { announce: "http://t.example/announce".to_string(), info };
    let encoded = info_bytes(&tf.info);
    assert_eq!(tf.info_hash(), sha1_of(&encoded));
    assert_eq!(tf.info_hash().len(), 20);
    let t = Torrent::new(tf);
    assert_eq!(t.info_hash, sha1_of(&encoded));
    assert!(t.peers.is_empty());
}

#[test]
fn test_multi_file_info_bytes() {
    let info = Info {
        name: "dir".to_string(),
        plength: 4,
        pieces: vec![vec![7u8; 20]],
        keys: Keys::MultiFile {
            files: vec![File { length: 3, path: vec!["sub".to_string(), "a".to_string()] }],
        },
    };
    let mut expected: Vec<u8> = Vec::new();
    expected.extend_from_slice(b"d5:filesld6:lengthi3e4:pathl3:sub1:aeee4:name3:dir");
    expected.extend_from_slice(b"12:piece lengthi4e6:pieces20:");
    expected.extend_from_slice(&[7u8; 20]);
    expected.extend_from_slice(b"e");
    assert_eq!(info_bytes(&info), expected);
}

#[test]
fn test_from_bencode_single_file() {
    let digest = vec![3u8; 20];
    let mut meta: Vec<u8> = Vec::new();
    meta.extend_from_slice(b"d8:announce24:http://tracker.example/a");
    meta.extend_from_slice(b"4:infod6:lengthi20e4:name5:a.bin12:piece lengthi20e6:pieces20:");
    meta.extend_from_slice(&digest);
    meta.extend_from_slice(b"ee");
    let (value, end) = decode_bencoded_value(&meta, 0).unwrap();
    assert_eq!(end, meta.len());
    let tf = TorrentFile::from_bencode(&value).unwrap();
    assert_eq!(tf.announce, "http://tracker.example/a");
    assert_eq!(tf.info.name, "a.bin");
    assert_eq!(tf.info.plength, 20);
    assert_eq!(tf.info.pieces, vec![digest]);
    assert!(matches!(tf.info.keys, Keys::SingleFile { length: 20 }));
}

#[test]
fn test_from_bencode_multi_file() {
    let digest = vec![9u8; 20];
    let mut meta: Vec<u8> = Vec::new();
    meta.extend_from_slice(b"d8:announce7:http://");
    meta.extend_from_slice(b"4:infod");
    meta.extend_from_slice(b"5:filesl");
    meta.extend_from_slice(b"d6:lengthi5e4:pathl1:aee");
    meta.extend_from_slice(b"d6:lengthi7e4:pathl3:sub1:bee");
    meta.extend_from_slice(b"e");
    meta.extend_from_slice(b"4:name3:dir12:piece lengthi12e6:pieces20:");
    meta.extend_from_slice(&digest);
    meta.extend_from_slice(b"ee");
    let (value, end) = decode_bencoded_value(&meta, 0).unwrap();
    assert_eq!(end, meta.len());
    let tf = TorrentFile::from_bencode(&value).unwrap();
    assert_eq!(tf.info.name, "dir");
    assert_eq!(tf.info.plength, 12);
    match &tf.info.keys {
        Keys::MultiFile { files } => {
            assert_eq!(files.len(), 2);
            assert_eq!(files[0].length, 5);
            assert_eq!(files[0].path, vec!["a".to_string()]);
            assert_eq!(files[1].length, 7);
            assert_eq!(files[1].path, vec!["sub".to_string(), "b".to_string()]);
        }
        _ => panic!("expected a multi-file layout"),
    }
    assert_eq!(tf.info.calculate_length(), 12);
}

#[test]
fn test_from_bencode_missing_key_refused() {
    let (value, _) = decode_bencoded_value(&b"d8:announce3:urle".to_vec(), 0).unwrap();
    assert!(TorrentFile::from_bencode(&value).is_none());
    let (value, _) = decode_bencoded_value(&b"i5e".to_vec(), 0).unwrap();
    assert!(TorrentFile::from_bencode(&value).is_none());
}

#[test]
fn test_split_piece_hashes() {
    let mut hb: Vec<u8> = Vec::new();
    hb.extend_from_slice(&[1u8; 20]);
    hb.extend_from_slice(&[2u8; 20]);
    let ps = split_piece_hashes(&hb).unwrap();
    assert_eq!(ps.len(), 2);
    assert_eq!(ps[0], vec![1u8; 20]);
    assert_eq!(ps[1], vec![2u8; 20]);
    assert!(split_piece_hashes(&vec![0u8; 21]).is_none());
}

#[test]
fn test_urlencode_exact() {
    assert_eq!(urlencode(&vec![0x12, 0xab, 0x00]), "%12%ab%00");
    assert_eq!(urlencode(&vec![]), "");
}

#[test]
fn test_build_tracker_url_exact() {
    let req = TrackerRequest {
        peer_id: "00112233445566718890".to_string(),
        port: 6881,
        uploaded: 0,
        downloaded: 0,
        left: 20000,
        no_peer_id: 0,
        compact: 1,
    };
    let url = build_tracker_url(&"http://t.example/announce".to_string(), &req, &vec![0xab, 0xcd]);
    assert_eq!(
        url,
        "http://t.example/announce?peer_id=00112233445566718890&port=6881&uploaded=0\
         &downloaded=0&left=20000&no_peer_id=0&compact=1&info_hash=%ab%cd"
    );
}

#[test]
fn test_tracker_response_of_dict() {
    let entries = vec![
        (b"interval".to_vec(), Bencode::Int(1800)),
        (b"peers".to_vec(), Bencode::Bytes(vec![127, 0, 0, 1, 0x1f, 0x90])),
    ];
    let tr = tracker_response_of_dict(&entries).unwrap();
    assert_eq!(tr.interval, 1800);
    assert_eq!(tr.peers.0.len(), 1);
    assert_eq!(tr.peers.0[0].ip, [127, 0, 0, 1]);
    assert_eq!(tr.peers.0[0].port, 8080);
}

#[test]
fn test_tracker_dict_first_key_wins() {
    // A dictionary with the same key twice: the first entry is the one read.
    let entries = vec![
        (b"interval".to_vec(), Bencode::Int(60)),
        (b"interval".to_vec(), Bencode::Int(99)),
        (b"peers".to_vec(), Bencode::Bytes(vec![])),
    ];
    let tr = tracker_response_of_dict(&entries).unwrap();
    assert_eq!(tr.interval, 60);
    assert!(tr.peers.0.is_empty());
}

#[test]
fn test_tracker_response_refused() {
    // Missing peers.
    let entries = vec![(b"interval".to_vec(), Bencode::Int(1800))];
    assert!(tracker_response_of_dict(&entries).is_none());
    // Negative interval.
    let entries = vec![
        (b"interval".to_vec(), Bencode::Int(-1)),
        (b"peers".to_vec(), Bencode::Bytes(vec![])),
    ];
    assert!(tracker_response_of_dict(&entries).is_none());
    // Peer bytes not a multiple of six.
    let entries = vec![
        (b"interval".to_vec(), Bencode::Int(1)),
        (b"peers".to_vec(), Bencode::Bytes(vec![1, 2, 3])),
    ];
    assert!(tracker_response_of_dict(&entries).is_none());
}
