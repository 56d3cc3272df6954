use bittorrent_core::assembler::Assembler;
use bittorrent_core::hashing::verify_piece;
use bittorrent_core::queue::WorkQueue;
use bittorrent_core::session::process_downloaded_piece;
use sha1::{Digest, Sha1};

fn sha1_of(data: &[u8]) -> Vec<u8> {
    let mut h = Sha1::new();
    h.update(data);
    h.finalize().as_slice().to_vec()
}

#[test]
fn test_queue_fifo_order() {
    let mut q = WorkQueue::new(vec![0, 1, 2]);
    assert_eq!(q.len(), 3);
    assert_eq!(q.get_piece(), Some(0));
    assert_eq!(q.get_piece(), Some(1));
    assert_eq!(q.get_piece(), Some(2));
    assert_eq!(q.get_piece(), None);
    assert_eq!(q.get_piece(), None);
}

#[test]
fn test_queue_return_piece_reappears() {
    // A piece aborted mid-download goes back to the tail and is handed out
    // again.
    let mut q = WorkQueue::new(vec![3, 4]);
    assert_eq!(q.get_piece(), Some(3));
    q.return_piece(3);
    assert_eq!(q.get_piece(), Some(4));
    assert_eq!(q.get_piece(), Some(3));
    assert_eq!(q.get_piece(), None);
}

#[test]
fn test_queue_claim_is_exclusive() {
    // Once an index is claimed, later claims cannot yield it until it is
    // returned.
    let mut q = WorkQueue::new(vec![7]);
    assert_eq!(q.get_piece(), Some(7));
    assert_eq!(q.get_piece(), None);
    q.return_piece(7);
    assert_eq!(q.get_piece(), Some(7));
}

#[test]
fn test_verify_piece_known_digest() {
    // SHA-1 of "abc" is a9993e364706816aba3e25717850c26c9cd0d89d.
    let data = b"abc".to_vec();
    let expected = hex::decode("a9993e364706816aba3e25717850c26c9cd0d89d").unwrap();
    assert!(verify_piece(&data, &expected));
    let wrong = hex::decode("a9993e364706816aba3e25717850c26c9cd0d89e").unwrap();
    assert!(!verify_piece(&data, &wrong));
    let other = b"abd".to_vec();
    assert!(!verify_piece(&other, &expected));
}

#[test]
fn test_assembler_out_of_order_delivery() {
    // plength 4, total 7: piece 0 is [1,2,3,4], piece 1 is [5,6,7].
    let p0 = vec![1u8, 2, 3, 4];
    let p1 = vec![5u8, 6, 7];
    let hashes = vec![sha1_of(&p0), sha1_of(&p1)];
    let mut a = Assembler::new(hashes, 4, 7);
    assert!(!a.is_complete());
    // Delivered in reverse order: the output is still in index order.
    assert!(a.accept(1, p1.clone()));
    assert!(a.accept(0, p0.clone()));
    assert!(a.is_complete());
    let out = a.assemble();
    assert_eq!(out, vec![1, 2, 3, 4, 5, 6, 7]);
    // Piece totality: each slice at its piece offset carries the digest the
    // descriptor demanded.
    assert_eq!(sha1_of(&out[0..4]), sha1_of(&p0));
    assert_eq!(sha1_of(&out[4..7]), sha1_of(&p1));
}

#[test]
fn test_assembler_rejects_bad_piece() {
    let p0 = vec![9u8; 4];
    let hashes = vec![sha1_of(&p0)];
    let mut a = Assembler::new(hashes, 4, 4);
    // Wrong bytes, wrong size, wrong index: all refused.
    assert!(!a.accept(0, vec![8u8; 4]));
    assert!(!a.accept(0, vec![9u8; 3]));
    assert!(!a.accept(1, p0.clone()));
    assert!(!a.is_complete());
    assert!(a.accept(0, p0));
    assert!(a.is_complete());
}

#[test]
fn test_assembler_duplicate_dropped() {
    let p0 = vec![1u8, 1, 1, 1];
    let p1 = vec![2u8, 2, 2, 2];
    let hashes = vec![sha1_of(&p0), sha1_of(&p1)];
    let mut a = Assembler::new(hashes, 4, 8);
    assert!(a.accept(0, p0.clone()));
    // The retry race: the same piece lands twice; the duplicate is dropped.
    assert!(a.accept(0, p0.clone()));
    assert!(a.accept(1, p1.clone()));
    let out = a.assemble();
    assert_eq!(out, vec![1, 1, 1, 1, 2, 2, 2, 2]);
}

#[test]
fn test_assembler_unaligned_tail_length() {
    // piece_length 16384, total 20000: piece 0 is 16384 bytes, piece 1 is
    // 3616; the assembled output is exactly 20000 bytes.
    let p0 = vec![0u8; 16384];
    let p1 = vec![1u8; 3616];
    let hashes = vec![sha1_of(&p0), sha1_of(&p1)];
    let mut a = Assembler::new(hashes, 16384, 20000);
    assert!(a.accept(0, p0));
    assert!(a.accept(1, p1));
    let out = a.assemble();
    assert_eq!(out.len(), 20000);
    assert_eq!(out[16383], 0);
    assert_eq!(out[16384], 1);
}

#[test]
fn test_hash_mismatch_requeues_piece() {
    // A corrupted piece goes back to the queue; the correct bytes later
    // complete the run.
    let good = vec![5u8; 4];
    let hashes = vec![sha1_of(&good)];
    let mut a = Assembler::new(hashes, 4, 4);
    let mut q = WorkQueue::new(vec![]);
    let accepted = process_downloaded_piece(&mut a, &mut q, 0, vec![6u8; 4]);
    assert!(!accepted);
    assert_eq!(q.get_piece(), Some(0));
    let accepted = process_downloaded_piece(&mut a, &mut q, 0, good);
    assert!(accepted);
    assert_eq!(q.get_piece(), None);
    assert!(a.is_complete());
    assert_eq!(a.assemble(), vec![5, 5, 5, 5]);
}
