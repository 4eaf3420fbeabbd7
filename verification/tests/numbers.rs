use torrust::decimal::{is_all_digits, parse_digits, parse_i64, push_decimal, push_signed_decimal};
use torrust::error::{
    ErrorKind, Field, HandshakeCause, MetadataCause, TorrentError, TrackerCause, WireCause,
};
use torrust::lex::{compare_bytes, ByteOrder};
use torrust::packing::{hash_at, u16_from_be, u32_from_be, u32_to_be};

#[test]
fn decimal_numerals_are_the_shortest() {
    let mut out = b"x".to_vec();
    push_decimal(&mut out, 0);
    push_decimal(&mut out, 7);
    push_decimal(&mut out, 10);
    push_decimal(&mut out, u64::MAX);
    assert_eq!(out, b"x071018446744073709551615");
    let mut out = Vec::new();
    push_signed_decimal(&mut out, -1);
    push_signed_decimal(&mut out, i64::MIN);
    push_signed_decimal(&mut out, 120);
    assert_eq!(out, b"-1-9223372036854775808120");
}

#[test]
fn digits_are_read_within_a_limit() {
    assert!(is_all_digits(b"a123b", 1, 4));
    assert!(!is_all_digits(b"a123b", 0, 4));
    assert!(is_all_digits(b"abc", 1, 1));
    assert_eq!(parse_digits(b"a123b", 1, 4, 1000), Some(123));
    assert_eq!(parse_digits(b"a123b", 1, 4, 123), Some(123));
    assert_eq!(parse_digits(b"a123b", 1, 4, 122), None);
    assert_eq!(parse_digits(b"000", 0, 3, 0), Some(0));
    assert_eq!(parse_digits(b"", 0, 0, 5), Some(0));
    assert_eq!(parse_digits(b"18446744073709551615", 0, 20, u64::MAX), Some(u64::MAX));
    assert_eq!(parse_digits(b"18446744073709551616", 0, 20, u64::MAX), None);
}

#[test]
fn signed_integers_are_read_as_rust_reads_them() {
    assert_eq!(parse_i64(b"52", 0, 2), Some(52));
    assert_eq!(parse_i64(b"-52", 0, 3), Some(-52));
    assert_eq!(parse_i64(b"+52", 0, 3), Some(52));
    assert_eq!(parse_i64(b"", 0, 0), None);
    assert_eq!(parse_i64(b"-", 0, 1), None);
    assert_eq!(parse_i64(b"5-2", 0, 3), None);
    assert_eq!(parse_i64(b"--2", 0, 3), None);
    assert_eq!(parse_i64(b"9223372036854775807", 0, 19), Some(i64::MAX));
    assert_eq!(parse_i64(b"9223372036854775808", 0, 19), None);
    assert_eq!(parse_i64(b"-9223372036854775808", 0, 20), Some(i64::MIN));
    assert_eq!(parse_i64(b"-9223372036854775809", 0, 20), None);
    assert_eq!(parse_i64(b"x12y", 1, 3), Some(12));
}

#[test]
fn byte_strings_compare_lexicographically() {
    assert_eq!(compare_bytes(b"abc", b"abd"), ByteOrder::Before);
    assert_eq!(compare_bytes(b"abd", b"abc"), ByteOrder::After);
    assert_eq!(compare_bytes(b"abc", b"abc"), ByteOrder::Same);
    assert_eq!(compare_bytes(b"ab", b"abc"), ByteOrder::Before);
    assert_eq!(compare_bytes(b"abc", b"ab"), ByteOrder::After);
    assert_eq!(compare_bytes(b"", b""), ByteOrder::Same);
    assert_eq!(compare_bytes(b"", b"a"), ByteOrder::Before);
    assert_eq!(compare_bytes(b"b", b"aa"), ByteOrder::After);
    assert_eq!(compare_bytes(&[0x7f], &[0x80]), ByteOrder::Before);
}

#[test]
fn integers_are_packed_most_significant_byte_first() {
    assert_eq!(u32_to_be(0x01020304), [1, 2, 3, 4]);
    assert_eq!(u32_to_be(16384), [0, 0, 0x40, 0]);
    assert_eq!(u32_to_be(u32::MAX), [255, 255, 255, 255]);
    assert_eq!(u32_from_be(&[9, 1, 2, 3, 4], 1), 0x01020304);
    assert_eq!(u32_from_be(&[255, 255, 255, 255], 0), u32::MAX);
    assert_eq!(u16_from_be(&[0x1a, 0xe1], 0), 6881);
    assert_eq!(u16_from_be(&[0, 0xc8, 0xd5], 1), 51413);
    let bytes: Vec<u8> = (0u8..30).collect();
    assert_eq!(hash_at(&bytes, 5).to_vec(), (5u8..25).collect::<Vec<u8>>());
}

#[test]
fn failures_are_put_in_words() {
    let cases = [
        (
            TorrentError::InvalidMetadata(MetadataCause::Missing(Field::PieceLength)),
            ErrorKind::InvalidMetadata,
            "invalid metadata: a required key is absent: piece length",
        ),
        (
            TorrentError::InvalidMetadata(MetadataCause::WrongKind(Field::Announce)),
            ErrorKind::InvalidMetadata,
            "invalid metadata: a key holds the wrong kind of value: announce",
        ),
        (
            TorrentError::InvalidMetadata(MetadataCause::PiecesLength),
            ErrorKind::InvalidMetadata,
            "invalid metadata: the length of pieces is not a multiple of 20",
        ),
        (
            TorrentError::InvalidTrackerResponse(TrackerCause::PeersLength),
            ErrorKind::InvalidTrackerResponse,
            "invalid tracker response: the length of peers is not a multiple of 6",
        ),
        (
            TorrentError::InvalidTrackerResponse(TrackerCause::Missing(Field::Interval)),
            ErrorKind::InvalidTrackerResponse,
            "invalid tracker response: a required key is absent: interval",
        ),
        (
            TorrentError::HandshakeFailed(HandshakeCause::HashMismatch),
            ErrorKind::HandshakeFailed,
            "handshake failed: the reply names another identity hash",
        ),
        (
            TorrentError::ConnectionClosed(WireCause::UnknownTag(200)),
            ErrorKind::ConnectionClosed,
            "connection closed: unknown message tag 200",
        ),
        (
            TorrentError::ConnectionClosed(WireCause::EndOfStream),
            ErrorKind::ConnectionClosed,
            "connection closed: the stream ended",
        ),
        (
            TorrentError::PieceCorrupt(17),
            ErrorKind::PieceCorrupt,
            "piece corrupt: the hash differs for piece 17",
        ),
        (
            TorrentError::DownloadIncomplete(3),
            ErrorKind::DownloadIncomplete,
            "download incomplete: pieces missing: 3",
        ),
    ];
    for (error, kind, words) in cases {
        assert_eq!(error.kind(), kind);
        assert_eq!(error.message(), words);
        assert_eq!(
            error.is_recoverable(),
            kind == ErrorKind::ConnectionClosed || kind == ErrorKind::PieceCorrupt
        );
    }
    assert_eq!(Field::Path.name(), "path");
    assert_eq!(MetadataCause::AmbiguousLayout.message(), "both length and files are given");
    assert_eq!(WireCause::OutOfOrder.message(), "a step of the protocol came out of order");
}
