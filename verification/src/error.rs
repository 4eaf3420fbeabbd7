//! The failures of the library, by kind and cause.

use crate::bencode::BencodeCause;
use crate::decimal::{dec_text, decimal_text};
use vstd::prelude::*;

verus! {

/// A key of the metadata file or of a tracker response.
#[derive(Debug, Clone, Copy, PartialEq, Eq, Structural)]
pub enum Field {
    Announce,
    Info,
    Name,
    PieceLength,
    Pieces,
    Length,
    Files,
    Path,
    Interval,
    Peers,
}

/// Why a bencoded value is not a metadata description.
#[derive(Debug, Clone, Copy, PartialEq, Eq, Structural)]
pub enum MetadataCause {
    /// The value, or the value under `info`, is no dictionary.
    NotADictionary,
    /// A required key is absent.
    Missing(Field),
    /// A key is bound to a value of the wrong kind: a number where text is
    /// due, text that is not UTF-8, a number that is negative or too large.
    WrongKind(Field),
    /// The length of `pieces` is not a multiple of 20.
    PiecesLength,
    /// Both `length` and `files` are there.
    AmbiguousLayout,
    /// A length of the model is too large to be written as a bencode integer.
    OutOfRange,
}

/// Why a bencoded value is not a tracker response.
#[derive(Debug, Clone, Copy, PartialEq, Eq, Structural)]
pub enum TrackerCause {
    /// The value is no dictionary.
    NotADictionary,
    /// A required key is absent.
    Missing(Field),
    /// A key is bound to a value of the wrong kind.
    WrongKind(Field),
    /// The length of `peers` is not a multiple of 6.
    PeersLength,
}

/// Why a handshake reply is refused.
#[derive(Debug, Clone, Copy, PartialEq, Eq, Structural)]
pub enum HandshakeCause {
    /// The reply does not have the fixed layout of 68 bytes with the protocol's name.
    Malformed,
    /// The reply names another identity hash than the one that was sent.
    HashMismatch,
}

/// Why a message from a peer cannot be used.
#[derive(Debug, Clone, Copy, PartialEq, Eq, Structural)]
pub enum WireCause {
    /// The stream ended, or a read or write failed.
    EndOfStream,
    /// The tag byte names no message.
    UnknownTag(u8),
    /// The payload is shorter than its fixed fields.
    ShortPayload,
    /// A block is not the one that was asked for: its piece, its offset or
    /// its length differs.
    BlockMismatch,
    /// A step of the protocol came out of order.
    OutOfOrder,
}

/// The kinds of failure.
#[derive(Debug, Clone, Copy, PartialEq, Eq, Structural)]
pub enum ErrorKind {
    MalformedBencode,
    InvalidMetadata,
    InvalidTrackerResponse,
    HandshakeFailed,
    ConnectionClosed,
    PieceCorrupt,
    DownloadIncomplete,
}

/// A failure: its kind, and what triggered it.
#[derive(Debug, Clone, Copy, PartialEq, Eq, Structural)]
pub enum TorrentError {
    /// The bytes are not bencode.
    MalformedBencode(BencodeCause),
    /// The metadata lacks a required field, or holds one of the wrong kind.
    InvalidMetadata(MetadataCause),
    /// The tracker's response cannot be used.
    InvalidTrackerResponse(TrackerCause),
    /// The peer's handshake reply is refused.
    HandshakeFailed(HandshakeCause),
    /// The connection to a peer ended or cannot be followed any more.
    ConnectionClosed(WireCause),
    /// The piece with this index does not have the expected hash.
    PieceCorrupt(usize),
    /// This many pieces are not verified and no peer is left to ask.
    DownloadIncomplete(usize),
}

impl TorrentError {
    /// The kind of the failure.
    pub open spec fn spec_kind(self) -> ErrorKind {
        match self {
            TorrentError::MalformedBencode(_) => ErrorKind::MalformedBencode,
            TorrentError::InvalidMetadata(_) => ErrorKind::InvalidMetadata,
            TorrentError::InvalidTrackerResponse(_) => ErrorKind::InvalidTrackerResponse,
            TorrentError::HandshakeFailed(_) => ErrorKind::HandshakeFailed,
            TorrentError::ConnectionClosed(_) => ErrorKind::ConnectionClosed,
            TorrentError::PieceCorrupt(_) => ErrorKind::PieceCorrupt,
            TorrentError::DownloadIncomplete(_) => ErrorKind::DownloadIncomplete,
        }
    }

    /// The kind of the failure.
    pub fn kind(&self) -> (kind: ErrorKind)
        ensures
            kind == self.spec_kind(),
    {
        match self {
            TorrentError::MalformedBencode(_) => ErrorKind::MalformedBencode,
            TorrentError::InvalidMetadata(_) => ErrorKind::InvalidMetadata,
            TorrentError::InvalidTrackerResponse(_) => ErrorKind::InvalidTrackerResponse,
            TorrentError::HandshakeFailed(_) => ErrorKind::HandshakeFailed,
            TorrentError::ConnectionClosed(_) => ErrorKind::ConnectionClosed,
            TorrentError::PieceCorrupt(_) => ErrorKind::PieceCorrupt,
            TorrentError::DownloadIncomplete(_) => ErrorKind::DownloadIncomplete,
        }
    }

    /// Whether the download can go on after the failure: a closed connection
    /// or a corrupt piece costs one attempt, every other failure is final.
    pub open spec fn spec_recoverable(self) -> bool {
        self.spec_kind() == ErrorKind::ConnectionClosed || self.spec_kind()
            == ErrorKind::PieceCorrupt
    }

    /// Whether the download can go on after the failure.
    pub fn is_recoverable(&self) -> (yes: bool)
        ensures
            yes == self.spec_recoverable(),
    {
        match self {
            TorrentError::ConnectionClosed(_) => true,
            TorrentError::PieceCorrupt(_) => true,
            _ => false,
        }
    }

    /// The failure in words: its kind, then its cause.
    pub open spec fn spec_message(self) -> Seq<char> {
        match self {
            TorrentError::MalformedBencode(cause) => "malformed bencode: "@ + cause.spec_message(),
            TorrentError::InvalidMetadata(cause) => "invalid metadata: "@ + cause.spec_message(),
            TorrentError::InvalidTrackerResponse(cause) => "invalid tracker response: "@
                + cause.spec_message(),
            TorrentError::HandshakeFailed(cause) => "handshake failed: "@ + cause.spec_message(),
            TorrentError::ConnectionClosed(cause) => "connection closed: "@ + cause.spec_message(),
            TorrentError::PieceCorrupt(index) => "piece corrupt: the hash differs for piece "@
                + dec_text(index as nat),
            TorrentError::DownloadIncomplete(missing) => "download incomplete: pieces missing: "@
                + dec_text(missing as nat),
        }
    }

    /// The failure in words: its kind, then its cause.
    pub fn message(&self) -> (text: String)
        ensures
            text@ == self.spec_message(),
    {
        match self {
            TorrentError::MalformedBencode(cause) => String::from_str("malformed bencode: ").concat(
                cause.message(),
            ),
            TorrentError::InvalidMetadata(cause) => String::from_str("invalid metadata: ").concat(
                cause.message().as_str(),
            ),
            TorrentError::InvalidTrackerResponse(cause) => String::from_str(
                "invalid tracker response: ",
            ).concat(cause.message().as_str()),
            TorrentError::HandshakeFailed(cause) => String::from_str("handshake failed: ").concat(
                cause.message(),
            ),
            TorrentError::ConnectionClosed(cause) => String::from_str("connection closed: ").concat(
                cause.message().as_str(),
            ),
            TorrentError::PieceCorrupt(index) => String::from_str(
                "piece corrupt: the hash differs for piece ",
            ).concat(decimal_text(*index as u64).as_str()),
            TorrentError::DownloadIncomplete(missing) => String::from_str(
                "download incomplete: pieces missing: ",
            ).concat(decimal_text(*missing as u64).as_str()),
        }
    }
}

impl Field {
    /// The key as it is written.
    pub open spec fn spec_name(self) -> Seq<char> {
        match self {
            Field::Announce => "announce"@,
            Field::Info => "info"@,
            Field::Name => "name"@,
            Field::PieceLength => "piece length"@,
            Field::Pieces => "pieces"@,
            Field::Length => "length"@,
            Field::Files => "files"@,
            Field::Path => "path"@,
            Field::Interval => "interval"@,
            Field::Peers => "peers"@,
        }
    }

    /// The key as it is written.
    pub fn name(&self) -> (text: &'static str)
        ensures
            text@ == self.spec_name(),
    {
        match self {
            Field::Announce => "announce",
            Field::Info => "info",
            Field::Name => "name",
            Field::PieceLength => "piece length",
            Field::Pieces => "pieces",
            Field::Length => "length",
            Field::Files => "files",
            Field::Path => "path",
            Field::Interval => "interval",
            Field::Peers => "peers",
        }
    }
}

impl MetadataCause {
    /// The cause in words.
    pub open spec fn spec_message(self) -> Seq<char> {
        match self {
            MetadataCause::NotADictionary => "the value is not a dictionary"@,
            MetadataCause::Missing(field) => "a required key is absent: "@ + field.spec_name(),
            MetadataCause::WrongKind(field) => "a key holds the wrong kind of value: "@
                + field.spec_name(),
            MetadataCause::PiecesLength => "the length of pieces is not a multiple of 20"@,
            MetadataCause::AmbiguousLayout => "both length and files are given"@,
            MetadataCause::OutOfRange => "a length is too large for a bencode integer"@,
        }
    }

    /// The cause in words.
    pub fn message(&self) -> (text: String)
        ensures
            text@ == self.spec_message(),
    {
        match self {
            MetadataCause::NotADictionary => String::from_str("the value is not a dictionary"),
            MetadataCause::Missing(field) => String::from_str("a required key is absent: ").concat(
                field.name(),
            ),
            MetadataCause::WrongKind(field) => String::from_str(
                "a key holds the wrong kind of value: ",
            ).concat(field.name()),
            MetadataCause::PiecesLength => String::from_str(
                "the length of pieces is not a multiple of 20",
            ),
            MetadataCause::AmbiguousLayout => String::from_str("both length and files are given"),
            MetadataCause::OutOfRange => String::from_str(
                "a length is too large for a bencode integer",
            ),
        }
    }
}

impl TrackerCause {
    /// The cause in words.
    pub open spec fn spec_message(self) -> Seq<char> {
        match self {
            TrackerCause::NotADictionary => "the value is not a dictionary"@,
            TrackerCause::Missing(field) => "a required key is absent: "@ + field.spec_name(),
            TrackerCause::WrongKind(field) => "a key holds the wrong kind of value: "@
                + field.spec_name(),
            TrackerCause::PeersLength => "the length of peers is not a multiple of 6"@,
        }
    }

    /// The cause in words.
    pub fn message(&self) -> (text: String)
        ensures
            text@ == self.spec_message(),
    {
        match self {
            TrackerCause::NotADictionary => String::from_str("the value is not a dictionary"),
            TrackerCause::Missing(field) => String::from_str("a required key is absent: ").concat(
                field.name(),
            ),
            TrackerCause::WrongKind(field) => String::from_str(
                "a key holds the wrong kind of value: ",
            ).concat(field.name()),
            TrackerCause::PeersLength => String::from_str(
                "the length of peers is not a multiple of 6",
            ),
        }
    }
}

impl HandshakeCause {
    /// The cause in words.
    pub open spec fn spec_message(self) -> Seq<char> {
        match self {
            HandshakeCause::Malformed => "the reply is not a handshake"@,
            HandshakeCause::HashMismatch => "the reply names another identity hash"@,
        }
    }

    /// The cause in words.
    pub fn message(&self) -> (text: &'static str)
        ensures
            text@ == self.spec_message(),
    {
        match self {
            HandshakeCause::Malformed => "the reply is not a handshake",
            HandshakeCause::HashMismatch => "the reply names another identity hash",
        }
    }
}

impl WireCause {
    /// The cause in words.
    pub open spec fn spec_message(self) -> Seq<char> {
        match self {
            WireCause::EndOfStream => "the stream ended"@,
            WireCause::UnknownTag(tag) => "unknown message tag "@ + dec_text(tag as nat),
            WireCause::ShortPayload => "a payload is too short"@,
            WireCause::BlockMismatch => "a block is not the one that was asked for"@,
            WireCause::OutOfOrder => "a step of the protocol came out of order"@,
        }
    }

    /// The cause in words.
    pub fn message(&self) -> (text: String)
        ensures
            text@ == self.spec_message(),
    {
        match self {
            WireCause::EndOfStream => String::from_str("the stream ended"),
            WireCause::UnknownTag(tag) => String::from_str("unknown message tag ").concat(
                decimal_text(*tag as u64).as_str(),
            ),
            WireCause::ShortPayload => String::from_str("a payload is too short"),
            WireCause::BlockMismatch => String::from_str(
                "a block is not the one that was asked for",
            ),
            WireCause::OutOfOrder => String::from_str("a step of the protocol came out of order"),
        }
    }
}

impl BencodeCause {
    /// The cause in words.
    pub open spec fn spec_message(self) -> Seq<char> {
        match self {
            BencodeCause::EndOfInput => "the input ends where a value must start"@,
            BencodeCause::UnexpectedByte => "a value starts with an unexpected byte"@,
            BencodeCause::UnterminatedInteger => "an integer is not terminated"@,
            BencodeCause::InvalidInteger => "an integer has non-numeric digits"@,
            BencodeCause::UnterminatedString => "a string length is not terminated"@,
            BencodeCause::InvalidLength => "a string length has non-numeric digits"@,
            BencodeCause::StringTooLong => "a string length exceeds the remaining input"@,
            BencodeCause::UnterminatedList => "a list is not terminated"@,
            BencodeCause::UnterminatedDictionary => "a dictionary is not terminated"@,
            BencodeCause::KeyNotString => "a dictionary key is not a byte string"@,
        }
    }

    /// The cause in words.
    pub fn message(&self) -> (text: &'static str)
        ensures
            text@ == self.spec_message(),
    {
        match self {
            BencodeCause::EndOfInput => "the input ends where a value must start",
            BencodeCause::UnexpectedByte => "a value starts with an unexpected byte",
            BencodeCause::UnterminatedInteger => "an integer is not terminated",
            BencodeCause::InvalidInteger => "an integer has non-numeric digits",
            BencodeCause::UnterminatedString => "a string length is not terminated",
            BencodeCause::InvalidLength => "a string length has non-numeric digits",
            BencodeCause::StringTooLong => "a string length exceeds the remaining input",
            BencodeCause::UnterminatedList => "a list is not terminated",
            BencodeCause::UnterminatedDictionary => "a dictionary is not terminated",
            BencodeCause::KeyNotString => "a dictionary key is not a byte string",
        }
    }
}

} // verus!
