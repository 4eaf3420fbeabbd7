use sha1::{Digest, Sha1};
use torrust::bencode::BencodeCause;
use torrust::codec::encode;
use torrust::error::{ErrorKind, Field, MetadataCause, TorrentError};
use torrust::torrent::{FileEntry, Info, Layout, Pieces, Torrent};

fn hashes(count: usize) -> Vec<u8> {
    (0..count * 20).map(|i| (i % 251) as u8).collect()
}

fn info_bytes(length: usize, plength: usize, pieces: &[u8]) -> Vec<u8> {
    let mut out = Vec::new();
    out.extend_from_slice(format!("d6:lengthi{}e4:name10:sample.txt12:piece lengthi{}e6:pieces{}:", length, plength, pieces.len()).as_bytes());
    out.extend_from_slice(pieces);
    out.extend_from_slice(b"e");
    out
}

fn file_bytes(announce: &str, info: &[u8]) -> Vec<u8> {
    let mut out = Vec::new();
    out.extend_from_slice(format!("d8:announce{}:{}4:info", announce.len(), announce).as_bytes());
    out.extend_from_slice(info);
    out.extend_from_slice(b"e");
    out
}

fn sample() -> Vec<u8> {
    file_bytes("http://tracker.example/announce", &info_bytes(92063, 32768, &hashes(3)))
}

fn metadata_cause(bytes: &[u8]) -> MetadataCause {
    match Torrent::parse(bytes) {
        Err(TorrentError::InvalidMetadata(cause)) => cause,
        other => panic!("expected invalid metadata, got {:?}", other),
    }
}

#[test]
fn parse_reads_every_field() {
    let torrent = Torrent::parse(&sample()).unwrap();
    assert_eq!(torrent.announce, "http://tracker.example/announce");
    assert_eq!(torrent.info.name, "sample.txt");
    assert_eq!(torrent.info.plength, 32768);
    assert_eq!(torrent.info.layout, Layout::SingleFile { length: 92063 });
    assert_eq!(torrent.info.pieces.len(), 3);
    let all = hashes(3);
    assert_eq!(torrent.info.pieces.0[0].to_vec(), all[0..20].to_vec());
    assert_eq!(torrent.info.pieces.0[1].to_vec(), all[20..40].to_vec());
    assert_eq!(torrent.info.pieces.0[2].to_vec(), all[40..60].to_vec());
}

#[test]
fn parse_passes_over_what_follows_the_dictionary() {
    let mut bytes = sample();
    bytes.extend_from_slice(b"trailing");
    assert_eq!(Torrent::parse(&bytes).unwrap(), Torrent::parse(&sample()).unwrap());
}

#[test]
fn parse_takes_keys_in_any_order() {
    let pieces = hashes(1);
    let mut bytes = Vec::new();
    bytes.extend_from_slice(b"d4:infod6:pieces20:");
    bytes.extend_from_slice(&pieces);
    bytes.extend_from_slice(b"12:piece lengthi16e4:name1:n6:lengthi16ee8:announce1:ae");
    let torrent = Torrent::parse(&bytes).unwrap();
    assert_eq!(torrent.announce, "a");
    assert_eq!(torrent.info.name, "n");
    assert_eq!(torrent.info.plength, 16);
    assert_eq!(torrent.info.layout, Layout::SingleFile { length: 16 });
}

#[test]
fn parse_reads_a_layout_of_several_files() {
    let pieces = hashes(2);
    let mut info = Vec::new();
    info.extend_from_slice(b"d5:filesld6:lengthi10e4:pathl3:dir5:a.txteed6:lengthi20e4:pathl5:b.txteee4:name4:root12:piece lengthi16e6:pieces40:");
    info.extend_from_slice(&pieces);
    info.extend_from_slice(b"e");
    let torrent = Torrent::parse(&file_bytes("http://t/a", &info)).unwrap();
    assert_eq!(
        torrent.info.layout,
        Layout::MultiFile {
            files: vec![
                FileEntry { length: 10, path: vec!["dir".to_string(), "a.txt".to_string()] },
                FileEntry { length: 20, path: vec!["b.txt".to_string()] },
            ]
        }
    );
    assert_eq!(torrent.info.total_length(), Some(30));
    assert!(torrent.info.is_consistent());
    assert_eq!(torrent.info.piece_size(0), Some(16));
    assert_eq!(torrent.info.piece_size(1), Some(14));
    assert_eq!(torrent.info.piece_size(2), None);
    assert_eq!(encode(&torrent.info.to_bencode().unwrap()), info);
}

#[test]
fn parse_rejects_what_is_not_bencode() {
    assert_eq!(
        Torrent::parse(b"d8:announ"),
        Err(TorrentError::MalformedBencode(BencodeCause::StringTooLong))
    );
    assert_eq!(Torrent::parse(b""), Err(TorrentError::MalformedBencode(BencodeCause::EndOfInput)));
    assert_eq!(Torrent::parse(b"").unwrap_err().kind(), ErrorKind::MalformedBencode);
}

#[test]
fn parse_rejects_missing_and_ill_typed_fields() {
    assert_eq!(metadata_cause(b"i1e"), MetadataCause::NotADictionary);
    assert_eq!(metadata_cause(b"de"), MetadataCause::Missing(Field::Announce));
    assert_eq!(metadata_cause(b"d8:announcei1ee"), MetadataCause::WrongKind(Field::Announce));
    assert_eq!(
        metadata_cause(&[b'd', b'8', b':', b'a', b'n', b'n', b'o', b'u', b'n', b'c', b'e', b'1', b':', 0xff, b'e']),
        MetadataCause::WrongKind(Field::Announce)
    );
    assert_eq!(metadata_cause(b"d8:announce1:ae"), MetadataCause::Missing(Field::Info));
    assert_eq!(metadata_cause(b"d8:announce1:a4:infoi1ee"), MetadataCause::WrongKind(Field::Info));
    assert_eq!(metadata_cause(&file_bytes("a", b"de")), MetadataCause::Missing(Field::Name));
    assert_eq!(
        metadata_cause(&file_bytes("a", b"d4:namei1ee")),
        MetadataCause::WrongKind(Field::Name)
    );
    assert_eq!(
        metadata_cause(&file_bytes("a", b"d4:name1:ne")),
        MetadataCause::Missing(Field::PieceLength)
    );
    assert_eq!(
        metadata_cause(&file_bytes("a", b"d4:name1:n12:piece length2:16e")),
        MetadataCause::WrongKind(Field::PieceLength)
    );
    assert_eq!(
        metadata_cause(&file_bytes("a", b"d4:name1:n12:piece lengthi-1ee")),
        MetadataCause::WrongKind(Field::PieceLength)
    );
    assert_eq!(
        metadata_cause(&file_bytes("a", b"d4:name1:n12:piece lengthi16ee")),
        MetadataCause::Missing(Field::Pieces)
    );
    assert_eq!(
        metadata_cause(&file_bytes("a", b"d4:name1:n12:piece lengthi16e6:piecesi0ee")),
        MetadataCause::WrongKind(Field::Pieces)
    );
    assert_eq!(
        metadata_cause(&file_bytes("a", b"d4:name1:n12:piece lengthi16e6:pieces0:e")),
        MetadataCause::Missing(Field::Length)
    );
    assert_eq!(
        metadata_cause(&file_bytes("a", b"d6:length1:x4:name1:n12:piece lengthi16e6:pieces0:e")),
        MetadataCause::WrongKind(Field::Length)
    );
    assert_eq!(
        metadata_cause(&file_bytes("a", b"d5:filesi1e4:name1:n12:piece lengthi16e6:pieces0:e")),
        MetadataCause::WrongKind(Field::Files)
    );
    assert_eq!(
        metadata_cause(&file_bytes("a", b"d5:filesli1ee4:name1:n12:piece lengthi16e6:pieces0:e")),
        MetadataCause::WrongKind(Field::Files)
    );
    assert_eq!(
        metadata_cause(&file_bytes("a", b"d5:filesld4:pathleee4:name1:n12:piece lengthi16e6:pieces0:e")),
        MetadataCause::Missing(Field::Length)
    );
    assert_eq!(
        metadata_cause(&file_bytes("a", b"d5:filesld6:lengthi1eee4:name1:n12:piece lengthi16e6:pieces0:e")),
        MetadataCause::Missing(Field::Path)
    );
    assert_eq!(
        metadata_cause(&file_bytes("a", b"d5:filesld6:lengthi1e4:pathli1eeee4:name1:n12:piece lengthi16e6:pieces0:e")),
        MetadataCause::WrongKind(Field::Path)
    );
    assert_eq!(
        metadata_cause(&file_bytes("a", b"d5:filesle6:lengthi1e4:name1:n12:piece lengthi16e6:pieces0:e")),
        MetadataCause::AmbiguousLayout
    );
}

#[test]
fn parse_rejects_piece_hashes_of_a_wrong_length() {
    let short = info_bytes(16, 16, &hashes(1)[..19]);
    assert_eq!(metadata_cause(&file_bytes("a", &short)), MetadataCause::PiecesLength);
    let long = info_bytes(16, 16, &hashes(2)[..21]);
    assert_eq!(
        Torrent::parse(&file_bytes("a", &long)),
        Err(TorrentError::InvalidMetadata(MetadataCause::PiecesLength))
    );
    assert_eq!(
        Torrent::parse(&file_bytes("a", &long)).unwrap_err().kind(),
        ErrorKind::InvalidMetadata
    );
}

#[test]
fn pieces_are_cut_and_joined() {
    let bytes = hashes(3);
    let pieces = Pieces::from_bytes(&bytes).unwrap();
    assert_eq!(pieces.len(), 3);
    assert_eq!(pieces.0[2].to_vec(), bytes[40..].to_vec());
    assert_eq!(pieces.to_bytes(), bytes);
    assert_eq!(Pieces::from_bytes(&[]), Some(Pieces(vec![])));
    assert_eq!(Pieces::from_bytes(&bytes[..59]), None);
    assert_eq!(Pieces::from_bytes(&bytes[..1]), None);
}

#[test]
fn info_hash_is_sha1_of_the_info_dictionary() {
    let info = info_bytes(92063, 32768, &hashes(3));
    let torrent = Torrent::parse(&file_bytes("http://tracker.example/announce", &info)).unwrap();
    let expected: [u8; 20] = Sha1::digest(&info).into();
    assert_eq!(torrent.info_hash(), Ok(expected));
    assert_eq!(encode(&torrent.info.to_bencode().unwrap()), info);
}

#[test]
fn info_hash_of_known_bytes() {
    let info = Info {
        name: "a".to_string(),
        plength: 1,
        pieces: Pieces(vec![]),
        layout: Layout::SingleFile { length: 0 },
    };
    let torrent = Torrent { announce: "x".to_string(), info };
    assert_eq!(
        encode(&torrent.info.to_bencode().unwrap()),
        b"d6:lengthi0e4:name1:a12:piece lengthi1e6:pieces0:e"
    );
    let expected: [u8; 20] =
        Sha1::digest(b"d6:lengthi0e4:name1:a12:piece lengthi1e6:pieces0:e").into();
    assert_eq!(torrent.info_hash().unwrap(), expected);
    assert_ne!(torrent.info_hash().unwrap(), [0u8; 20]);
}

#[test]
fn info_hash_does_not_depend_on_the_announce_url() {
    let info = info_bytes(92063, 32768, &hashes(3));
    let one = Torrent::parse(&file_bytes("http://one.example/announce", &info)).unwrap();
    let other = Torrent::parse(&file_bytes("udp://other.example:6969", &info)).unwrap();
    assert_ne!(one.announce, other.announce);
    assert_eq!(one.info_hash(), other.info_hash());
    let again = Torrent::parse(&file_bytes("http://one.example/announce", &info)).unwrap();
    assert_eq!(one.info_hash(), again.info_hash());
    let changed = info_bytes(92064, 32768, &hashes(3));
    let third = Torrent::parse(&file_bytes("http://one.example/announce", &changed)).unwrap();
    assert_ne!(one.info_hash(), third.info_hash());
}

#[test]
fn info_hash_needs_lengths_that_bencode_can_hold() {
    let info = Info {
        name: "a".to_string(),
        plength: usize::MAX,
        pieces: Pieces(vec![]),
        layout: Layout::SingleFile { length: 0 },
    };
    let torrent = Torrent { announce: "x".to_string(), info };
    assert_eq!(
        torrent.info_hash(),
        Err(TorrentError::InvalidMetadata(MetadataCause::OutOfRange))
    );
}

#[test]
fn pieces_have_the_piece_length_but_for_the_last() {
    let torrent = Torrent::parse(&sample()).unwrap();
    assert_eq!(torrent.info.total_length(), Some(92063));
    assert!(torrent.info.is_consistent());
    assert_eq!(torrent.info.piece_size(0), Some(32768));
    assert_eq!(torrent.info.piece_size(1), Some(32768));
    assert_eq!(torrent.info.piece_size(2), Some(92063 - 2 * 32768));
    assert_eq!(torrent.info.piece_size(3), None);
}

#[test]
fn consistency_asks_for_exactly_enough_pieces() {
    let make = |length: usize, plength: usize, count: usize| Info {
        name: "n".to_string(),
        plength,
        pieces: Pieces(vec![[0u8; 20]; count]),
        layout: Layout::SingleFile { length },
    };
    assert!(make(32, 16, 2).is_consistent());
    assert!(make(17, 16, 2).is_consistent());
    assert!(!make(16, 16, 2).is_consistent());
    assert!(!make(33, 16, 2).is_consistent());
    assert!(!make(32, 0, 2).is_consistent());
    assert!(make(0, 16, 0).is_consistent());
    assert!(!make(1, 16, 0).is_consistent());
    assert!(!make(0, 16, 1).is_consistent());
    let two = Layout::MultiFile {
        files: vec![
            FileEntry { length: usize::MAX, path: vec![] },
            FileEntry { length: 1, path: vec![] },
        ],
    };
    assert_eq!(two.total_length(), None);
}
