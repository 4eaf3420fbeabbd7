use sha1::{Digest, Sha1};
use torrust::error::{ErrorKind, TorrentError};
use torrust::torrent::{Info, Layout, Pieces};
use torrust::worker::{PieceStatus, Worker};

fn content() -> Vec<u8> {
    (0..40usize).map(|i| (i * 3 + 1) as u8).collect()
}

fn hash_of(bytes: &[u8]) -> [u8; 20] {
    Sha1::digest(bytes).into()
}

fn info() -> Info {
    let all = content();
    Info {
        name: "n".to_string(),
        plength: 16,
        pieces: Pieces(vec![hash_of(&all[..16]), hash_of(&all[16..32]), hash_of(&all[32..])]),
        layout: Layout::SingleFile { length: 40 },
    }
}

#[test]
fn queue_is_seeded_with_every_piece() {
    let worker = Worker::new(&info()).unwrap();
    assert_eq!(worker.len(), 3);
    for i in 0..3 {
        assert_eq!(worker.status(i), Some(PieceStatus::Pending));
        assert_eq!(worker.expected_hash(i), Some(info().pieces.0[i]));
    }
    assert_eq!(worker.expected_len(0), Some(16));
    assert_eq!(worker.expected_len(1), Some(16));
    assert_eq!(worker.expected_len(2), Some(8));
    assert_eq!(worker.status(3), None);
    assert_eq!(worker.expected_len(3), None);
    assert_eq!(worker.expected_hash(3), None);
    assert_eq!(worker.unverified(), 3);
    assert!(!worker.is_complete());
}

#[test]
fn queue_needs_a_consistent_description() {
    let mut short = info();
    short.layout = Layout::SingleFile { length: 32 };
    assert!(Worker::new(&short).is_none());
    let mut zero = info();
    zero.plength = 0;
    assert!(Worker::new(&zero).is_none());
}

#[test]
fn each_piece_is_claimed_by_one_worker() {
    let mut worker = Worker::new(&info()).unwrap();
    assert_eq!(worker.claim(7), Some(0));
    assert_eq!(worker.claim(8), Some(1));
    assert_eq!(worker.claim(7), Some(2));
    assert_eq!(worker.claim(9), None);
    assert_eq!(worker.status(0), Some(PieceStatus::InFlight(7)));
    assert_eq!(worker.status(1), Some(PieceStatus::InFlight(8)));
    assert_eq!(worker.status(2), Some(PieceStatus::InFlight(7)));
}

#[test]
fn a_released_piece_is_pending_again() {
    let mut worker = Worker::new(&info()).unwrap();
    assert_eq!(worker.claim(7), Some(0));
    assert_eq!(worker.claim(8), Some(1));
    worker.release(0, 8);
    assert_eq!(worker.status(0), Some(PieceStatus::InFlight(7)));
    worker.release(0, 7);
    assert_eq!(worker.status(0), Some(PieceStatus::Pending));
    worker.release(5, 7);
    worker.release(2, 7);
    assert_eq!(worker.status(2), Some(PieceStatus::Pending));
    assert_eq!(worker.claim(8), Some(0));
    assert_eq!(worker.status(0), Some(PieceStatus::InFlight(8)));
}

#[test]
fn a_piece_is_verified_only_by_its_hash() {
    let all = content();
    let mut worker = Worker::new(&info()).unwrap();
    assert_eq!(worker.claim(1), Some(0));
    let mut flipped = all[..16].to_vec();
    flipped[3] ^= 0x80;
    let outcome = worker.submit(0, 1, flipped);
    assert_eq!(outcome, Err(TorrentError::PieceCorrupt(0)));
    assert_eq!(outcome.unwrap_err().kind(), ErrorKind::PieceCorrupt);
    assert_eq!(worker.status(0), Some(PieceStatus::Pending));
    assert_eq!(worker.claim(2), Some(0));
    assert_eq!(worker.submit(0, 2, all[..15].to_vec()), Err(TorrentError::PieceCorrupt(0)));
    assert_eq!(worker.status(0), Some(PieceStatus::Pending));
    assert_eq!(worker.claim(2), Some(0));
    assert_eq!(worker.submit(0, 2, all[..16].to_vec()), Ok(()));
    assert_eq!(worker.status(0), Some(PieceStatus::Verified));
    assert_eq!(worker.unverified(), 2);
}

#[test]
fn bytes_from_a_worker_without_the_piece_change_nothing() {
    let all = content();
    let mut worker = Worker::new(&info()).unwrap();
    assert_eq!(worker.submit(0, 1, all[..16].to_vec()), Err(TorrentError::PieceCorrupt(0)));
    assert_eq!(worker.status(0), Some(PieceStatus::Pending));
    assert_eq!(worker.claim(1), Some(0));
    assert_eq!(worker.submit(0, 2, all[..16].to_vec()), Err(TorrentError::PieceCorrupt(0)));
    assert_eq!(worker.status(0), Some(PieceStatus::InFlight(1)));
    assert_eq!(worker.submit(9, 1, vec![]), Err(TorrentError::PieceCorrupt(9)));
    assert_eq!(worker.submit(0, 1, all[..16].to_vec()), Ok(()));
    assert_eq!(worker.submit(0, 1, all[..16].to_vec()), Err(TorrentError::PieceCorrupt(0)));
    assert_eq!(worker.status(0), Some(PieceStatus::Verified));
    worker.release(0, 1);
    assert_eq!(worker.status(0), Some(PieceStatus::Verified));
}

#[test]
fn content_is_the_pieces_in_index_order() {
    let all = content();
    let mut worker = Worker::new(&info()).unwrap();
    assert_eq!(worker.assemble(), Err(TorrentError::DownloadIncomplete(3)));
    assert_eq!(worker.claim(1), Some(0));
    assert_eq!(worker.claim(2), Some(1));
    assert_eq!(worker.claim(3), Some(2));
    assert_eq!(worker.submit(2, 3, all[32..].to_vec()), Ok(()));
    assert_eq!(worker.submit(0, 1, all[..16].to_vec()), Ok(()));
    let missing = worker.assemble().unwrap_err();
    assert_eq!(missing, TorrentError::DownloadIncomplete(1));
    assert_eq!(missing.kind(), ErrorKind::DownloadIncomplete);
    assert!(!missing.is_recoverable());
    assert_eq!(worker.submit(1, 2, all[16..32].to_vec()), Ok(()));
    assert!(worker.is_complete());
    assert_eq!(worker.unverified(), 0);
    assert_eq!(worker.assemble(), Ok(all));
    assert_eq!(worker.claim(1), None);
}

#[test]
fn giving_up_fails_what_is_not_verified() {
    let all = content();
    let mut worker = Worker::new(&info()).unwrap();
    assert_eq!(worker.claim(1), Some(0));
    assert_eq!(worker.submit(0, 1, all[..16].to_vec()), Ok(()));
    assert_eq!(worker.claim(1), Some(1));
    worker.give_up();
    assert_eq!(worker.status(0), Some(PieceStatus::Verified));
    assert_eq!(worker.status(1), Some(PieceStatus::Failed));
    assert_eq!(worker.status(2), Some(PieceStatus::Failed));
    assert_eq!(worker.claim(2), None);
    assert_eq!(worker.submit(1, 1, all[16..32].to_vec()), Err(TorrentError::PieceCorrupt(1)));
    assert_eq!(worker.assemble(), Err(TorrentError::DownloadIncomplete(2)));
}

#[test]
fn a_content_without_pieces_is_complete_at_once() {
    let empty = Info {
        name: "n".to_string(),
        plength: 16,
        pieces: Pieces(vec![]),
        layout: Layout::SingleFile { length: 0 },
    };
    let mut worker = Worker::new(&empty).unwrap();
    assert_eq!(worker.len(), 0);
    assert!(worker.is_complete());
    assert_eq!(worker.claim(1), None);
    assert_eq!(worker.assemble(), Ok(vec![]));
}

#[test]
fn bytes_are_accepted_by_holder_length_and_digest() {
    let all = content();
    let mut worker = Worker::new(&info()).unwrap();
    let digest = hash_of(&all[..16]);
    assert!(!worker.holds(0, 1));
    assert!(!worker.accepts(0, 1, 16, &digest));
    assert_eq!(worker.claim(1), Some(0));
    assert!(worker.holds(0, 1));
    assert!(!worker.holds(0, 2));
    assert!(!worker.holds(1, 1));
    assert!(!worker.holds(3, 1));
    assert!(worker.accepts(0, 1, 16, &digest));
    assert!(!worker.accepts(0, 2, 16, &digest));
    assert!(!worker.accepts(0, 1, 15, &digest));
    assert!(!worker.accepts(0, 1, 16, &hash_of(&all[16..32])));
    assert!(!worker.accepts(1, 1, 16, &hash_of(&all[16..32])));
    assert!(!worker.accepts(3, 1, 16, &digest));
}
