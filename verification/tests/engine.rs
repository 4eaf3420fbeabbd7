use sha1::{Digest, Sha1};
use torrust::engine::{PieceEngine, Step, BLOCK_MAX};
use torrust::error::{ErrorKind, TorrentError, WireCause};
use torrust::peer::{Message, MessageTag, Request};

fn content(len: usize) -> Vec<u8> {
    (0..len).map(|i| (i * 7 % 256) as u8).collect()
}

fn hash_of(bytes: &[u8]) -> [u8; 20] {
    Sha1::digest(bytes).into()
}

fn block(index: u32, begin: u32, bytes: &[u8]) -> Message {
    let mut payload = Vec::new();
    payload.extend_from_slice(&index.to_be_bytes());
    payload.extend_from_slice(&begin.to_be_bytes());
    payload.extend_from_slice(bytes);
    Message { tag: MessageTag::Piece, payload }
}

fn mismatch() -> TorrentError {
    TorrentError::ConnectionClosed(WireCause::BlockMismatch)
}

#[test]
fn default_block_is_16_kib() {
    assert_eq!(BLOCK_MAX, 16384);
}

#[test]
fn blocks_are_asked_for_in_ascending_offsets() {
    let piece = content(40000);
    let mut engine = PieceEngine::new(4, hash_of(&piece), 40000, BLOCK_MAX).unwrap();
    assert_eq!(engine.next_request(), Some(Request::new(4, 0, 16384)));
    assert_eq!(
        engine.next_message(),
        Some(Message {
            tag: MessageTag::Request,
            payload: vec![0, 0, 0, 4, 0, 0, 0, 0, 0, 0, 0x40, 0],
        })
    );
    assert_eq!(engine.handle(&block(4, 0, &piece[..16384])), Ok(Step::Continue));
    assert_eq!(engine.next_request(), Some(Request::new(4, 16384, 16384)));
    assert_eq!(engine.handle(&block(4, 16384, &piece[16384..32768])), Ok(Step::Continue));
    assert_eq!(engine.next_request(), Some(Request::new(4, 32768, 7232)));
    assert!(!engine.is_complete());
    assert_eq!(engine.handle(&block(4, 32768, &piece[32768..])), Ok(Step::Complete));
    assert!(engine.is_complete());
    assert!(engine.verify());
    assert_eq!(engine.next_request(), None);
    assert_eq!(engine.next_message(), None);
    assert_eq!(engine.into_bytes(), piece);
}

#[test]
fn a_flipped_bit_makes_the_piece_corrupt() {
    let piece = content(100);
    let mut engine = PieceEngine::new(2, hash_of(&piece), 100, 64).unwrap();
    assert_eq!(engine.handle(&block(2, 0, &piece[..64])), Ok(Step::Continue));
    let mut tail = piece[64..].to_vec();
    tail[35] ^= 0x01;
    let outcome = engine.handle(&block(2, 64, &tail));
    assert_eq!(outcome, Err(TorrentError::PieceCorrupt(2)));
    assert_eq!(outcome.unwrap_err().kind(), ErrorKind::PieceCorrupt);
    assert!(outcome.unwrap_err().is_recoverable());
    assert!(engine.is_complete());
    assert!(!engine.verify());
}

#[test]
fn a_block_that_was_not_asked_for_is_refused() {
    let piece = content(100);
    let mut engine = PieceEngine::new(2, hash_of(&piece), 100, 64).unwrap();
    assert_eq!(engine.handle(&block(3, 0, &piece[..64])), Err(mismatch()));
    assert_eq!(engine.handle(&block(2, 1, &piece[..64])), Err(mismatch()));
    assert_eq!(engine.handle(&block(2, 0, &piece[..63])), Err(mismatch()));
    assert_eq!(engine.handle(&block(2, 0, &piece[..65])), Err(mismatch()));
    assert_eq!(engine.handle(&block(2, 0, &[])), Err(mismatch()));
    assert_eq!(engine.next_request(), Some(Request::new(2, 0, 64)));
    assert_eq!(engine.handle(&block(2, 0, &piece[..64])), Ok(Step::Continue));
    assert_eq!(engine.handle(&block(2, 0, &piece[..64])), Err(mismatch()));
    assert_eq!(engine.handle(&block(2, 64, &piece[..64])), Err(mismatch()));
    assert_eq!(engine.next_request(), Some(Request::new(2, 64, 36)));
    assert_eq!(engine.handle(&block(2, 64, &piece[64..])), Ok(Step::Complete));
    assert_eq!(engine.handle(&block(2, 100, &[])), Err(mismatch()));
}

#[test]
fn a_short_piece_payload_is_refused() {
    let mut engine = PieceEngine::new(0, [0; 20], 10, 4).unwrap();
    let short = Message { tag: MessageTag::Piece, payload: vec![0, 0, 0, 0, 0, 0, 0] };
    assert_eq!(engine.handle(&short), Err(TorrentError::ConnectionClosed(WireCause::ShortPayload)));
    assert_eq!(engine.next_request(), Some(Request::new(0, 0, 4)));
}

#[test]
fn other_messages_are_passed_over() {
    let piece = content(10);
    let mut engine = PieceEngine::new(0, hash_of(&piece), 10, 4).unwrap();
    let have = Message { tag: MessageTag::Have, payload: vec![0, 0, 0, 1] };
    assert_eq!(engine.handle(&have), Ok(Step::Ignored));
    let choke = Message { tag: MessageTag::Choke, payload: vec![] };
    assert_eq!(engine.handle(&choke), Ok(Step::Ignored));
    assert_eq!(engine.next_request(), Some(Request::new(0, 0, 4)));
    assert_eq!(engine.handle(&block(0, 0, &piece[..4])), Ok(Step::Continue));
    assert_eq!(engine.handle(&have), Ok(Step::Ignored));
    assert_eq!(engine.handle(&block(0, 4, &piece[4..8])), Ok(Step::Continue));
    assert_eq!(engine.next_request(), Some(Request::new(0, 8, 2)));
    assert_eq!(engine.handle(&block(0, 8, &piece[8..])), Ok(Step::Complete));
}

#[test]
fn an_empty_piece_is_whole_at_once() {
    let engine = PieceEngine::new(0, hash_of(&[]), 0, 16).unwrap();
    assert!(engine.is_complete());
    assert!(engine.verify());
    assert_eq!(engine.next_request(), None);
    let wrong = PieceEngine::new(0, [0; 20], 0, 16).unwrap();
    assert!(!wrong.verify());
}

#[test]
fn engine_needs_a_block_size_and_32_bit_numbers() {
    assert!(PieceEngine::new(0, [0; 20], 10, 0).is_none());
    assert!(PieceEngine::new(0, [0; 20], u32::MAX as usize, 1).is_some());
    assert!(PieceEngine::new(u32::MAX as usize, [0; 20], 1, 1).is_some());
    if usize::BITS > 32 {
        assert!(PieceEngine::new(0, [0; 20], u32::MAX as usize + 1, 1).is_none());
        assert!(PieceEngine::new(u32::MAX as usize + 1, [0; 20], 1, 1).is_none());
    }
}

#[test]
fn a_digest_counts_only_for_a_whole_piece() {
    let piece = content(10);
    let mut engine = PieceEngine::new(0, hash_of(&piece), 10, 6).unwrap();
    assert!(!engine.check_digest(&hash_of(&piece)));
    assert_eq!(engine.handle(&block(0, 0, &piece[..6])), Ok(Step::Continue));
    assert!(!engine.check_digest(&hash_of(&piece)));
    assert_eq!(engine.handle(&block(0, 6, &piece[6..])), Ok(Step::Complete));
    assert!(engine.check_digest(&hash_of(&piece)));
    let mut other = hash_of(&piece);
    other[0] ^= 1;
    assert!(!engine.check_digest(&other));
}
