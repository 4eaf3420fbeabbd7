//! The peer wire format: the handshake, the framed messages, and the
//! payloads of block requests and responses.

use crate::error::{HandshakeCause, TorrentError, WireCause};
use crate::hash::hashes_equal;
use crate::packing::{be_u32, hash_at, lemma_be_u32_of_u32_be, u32_be, u32_from_be, u32_to_be};
use bytes::BytesMut;
use vstd::prelude::*;
use vstd::slice::{slice_subrange, slice_to_vec};

verus! {

// ---------------------------------------------------------------------------
// The handshake
// ---------------------------------------------------------------------------

/// The handshake: 68 bytes that name the protocol, the content and the peer.
#[derive(Debug, Clone, Copy, PartialEq, Eq)]
pub struct Handshake {
    /// The length of the protocol's name: 19.
    pub length: u8,
    /// The protocol's name.
    pub protocol: [u8; 19],
    /// Eight reserved bytes, all zero.
    pub reserved_bytes: [u8; 8],
    /// The identity hash of the content.
    pub info_hash: [u8; 20],
    /// The identifier of the peer that sends the handshake.
    pub peer_id: [u8; 20],
}

/// The protocol's name, `BitTorrent protocol`, in ASCII.
pub open spec fn protocol_name() -> Seq<u8> {
    seq![
        66u8, 105u8, 116u8, 84u8, 111u8, 114u8, 114u8, 101u8, 110u8, 116u8, 32u8, 112u8, 114u8,
        111u8, 116u8, 111u8, 99u8, 111u8, 108u8,
    ]
}

/// The 68 bytes of a handshake with this identity hash and peer identifier.
pub open spec fn handshake_bytes(info_hash: Seq<u8>, peer_id: Seq<u8>) -> Seq<u8> {
    seq![19u8] + protocol_name() + Seq::new(8, |i: int| 0u8) + info_hash + peer_id
}

impl Handshake {
    /// The handshake is what `new` makes for its hash and peer identifier.
    pub open spec fn well_formed(&self) -> bool {
        &&& self.length == 19
        &&& self.protocol@ == protocol_name()
        &&& self.reserved_bytes@ == Seq::new(8, |i: int| 0u8)
    }

    /// The bytes of the handshake, field by field.
    pub open spec fn spec_bytes(&self) -> Seq<u8> {
        seq![self.length] + self.protocol@ + self.reserved_bytes@ + self.info_hash@
            + self.peer_id@
    }

    /// The handshake for this content, sent by this peer.
    pub fn new(info_hash: [u8; 20], peer_id: [u8; 20]) -> (handshake: Self)
        ensures
            handshake.well_formed(),
            handshake.info_hash == info_hash,
            handshake.peer_id == peer_id,
            handshake.spec_bytes() == handshake_bytes(info_hash@, peer_id@),
    {
        let protocol: [u8; 19] = [
            66, 105, 116, 84, 111, 114, 114, 101, 110, 116, 32, 112, 114, 111, 116, 111, 99, 111,
            108,
        ];
        let reserved_bytes: [u8; 8] = [0u8; 8];
        assert(protocol@ =~= protocol_name());
        assert(reserved_bytes@ =~= Seq::new(8, |i: int| 0u8));
        Self { length: 19, protocol, reserved_bytes, info_hash, peer_id }
    }

    /// Packs the handshake into its 68 bytes.
    pub fn to_bytes(&self) -> (bytes: Vec<u8>)
        ensures
            bytes@ == self.spec_bytes(),
            bytes@.len() == 68,
    {
        let mut bytes: Vec<u8> = Vec::new();
        bytes.push(self.length);
        bytes.extend_from_slice(self.protocol.as_slice());
        bytes.extend_from_slice(self.reserved_bytes.as_slice());
        bytes.extend_from_slice(self.info_hash.as_slice());
        bytes.extend_from_slice(self.peer_id.as_slice());
        assert(bytes@ =~= self.spec_bytes());
        bytes
    }

    /// Unpacks a handshake from its 68 bytes. Anything that is not 68 bytes
    /// long, or does not start with 19 and the protocol's name, is refused
    /// as a malformed handshake. The reserved bytes are taken as they come.
    pub fn from_bytes(bytes: &[u8]) -> (res: Result<Handshake, TorrentError>)
        ensures
            match res {
                Ok(handshake) => {
                    &&& bytes@.len() == 68
                    &&& handshake.spec_bytes() == bytes@
                    &&& handshake.length == 19
                    &&& handshake.protocol@ == protocol_name()
                },
                Err(error) => {
                    &&& error == TorrentError::HandshakeFailed(HandshakeCause::Malformed)
                    &&& !(bytes@.len() == 68 && bytes@[0] == 19 && bytes@.subrange(1, 20)
                        == protocol_name())
                },
            },
    {
        if bytes.len() != 68 || bytes[0] != 19 {
            return Err(TorrentError::HandshakeFailed(HandshakeCause::Malformed));
        }
        let expected: [u8; 19] = [
            66, 105, 116, 84, 111, 114, 114, 101, 110, 116, 32, 112, 114, 111, 116, 111, 99, 111,
            108,
        ];
        assert(expected@ =~= protocol_name());
        let mut protocol: [u8; 19] = [0u8; 19];
        let mut i: usize = 0;
        while i < 19
            invariant
                i <= 19,
                bytes@.len() == 68,
                expected@ == protocol_name(),
                forall|k: int|
                    0 <= k < i ==> protocol@[k] == bytes@[1 + k] && protocol@[k] == expected@[k],
            decreases 19 - i,
        {
            if bytes[1 + i] != expected[i] {
                assert(bytes@.subrange(1, 20)[i as int] != protocol_name()[i as int]);
                return Err(TorrentError::HandshakeFailed(HandshakeCause::Malformed));
            }
            protocol[i] = bytes[1 + i];
            i += 1;
        }
        let mut reserved_bytes: [u8; 8] = [0u8; 8];
        let mut j: usize = 0;
        while j < 8
            invariant
                j <= 8,
                bytes@.len() == 68,
                forall|k: int| 0 <= k < j ==> reserved_bytes@[k] == bytes@[20 + k],
            decreases 8 - j,
        {
            reserved_bytes[j] = bytes[20 + j];
            j += 1;
        }
        let info_hash = hash_at(bytes, 28);
        let peer_id = hash_at(bytes, 48);
        let handshake = Handshake { length: 19, protocol, reserved_bytes, info_hash, peer_id };
        assert(protocol@ =~= protocol_name());
        assert(handshake.spec_bytes() =~= bytes@);
        Ok(handshake)
    }
}

/// What a handshake reply means to a peer that sent `sent_hash`: the remote
/// peer's identifier if the reply is a handshake for the same content.
pub open spec fn reply_outcome(sent_hash: Seq<u8>, reply: Seq<u8>) -> Result<
    Seq<u8>,
    TorrentError,
> {
    if !(reply.len() == 68 && reply[0] == 19 && reply.subrange(1, 20) == protocol_name()) {
        Err(TorrentError::HandshakeFailed(HandshakeCause::Malformed))
    } else if reply.subrange(28, 48) != sent_hash {
        Err(TorrentError::HandshakeFailed(HandshakeCause::HashMismatch))
    } else {
        Ok(reply.subrange(48, 68))
    }
}

/// Checks the 68 bytes that a peer sent back: they must be a handshake that
/// echoes the identity hash that was sent. Returns the remote peer's
/// identifier.
pub fn check_reply(sent_hash: &[u8; 20], reply: &[u8]) -> (res: Result<[u8; 20], TorrentError>)
    ensures
        match res {
            Ok(peer_id) => reply_outcome(sent_hash@, reply@) == Ok::<Seq<u8>, TorrentError>(
                peer_id@,
            ),
            Err(error) => reply_outcome(sent_hash@, reply@) == Err::<Seq<u8>, TorrentError>(error),
        },
{
    match Handshake::from_bytes(reply) {
        Err(error) => Err(error),
        Ok(handshake) => {
            assert(handshake.info_hash@ =~= reply@.subrange(28, 48)) by {
                assert(handshake.spec_bytes().subrange(28, 48) =~= handshake.info_hash@);
            }
            assert(handshake.peer_id@ =~= reply@.subrange(48, 68)) by {
                assert(handshake.spec_bytes().subrange(48, 68) =~= handshake.peer_id@);
            }
            assert(reply@.subrange(1, 20) =~= protocol_name()) by {
                assert(handshake.spec_bytes().subrange(1, 20) =~= handshake.protocol@);
            }
            assert(reply@[0] == 19) by {
                assert(handshake.spec_bytes()[0] == handshake.length);
            }
            if hashes_equal(&handshake.info_hash, sent_hash) {
                Ok(handshake.peer_id)
            } else {
                Err(TorrentError::HandshakeFailed(HandshakeCause::HashMismatch))
            }
        },
    }
}

// ---------------------------------------------------------------------------
// Message tags
// ---------------------------------------------------------------------------

/// The kind of a message.
#[derive(Debug, Clone, Copy, PartialEq, Eq, Structural)]
pub enum MessageTag {
    Choke,
    Unchoke,
    Interested,
    NotInterested,
    Have,
    Bitfield,
    Request,
    Piece,
    Cancel,
}

/// The tag that a byte stands for, if it stands for one.
pub open spec fn tag_of_byte(tag: u8) -> Option<MessageTag> {
    if tag == 0 {
        Some(MessageTag::Choke)
    } else if tag == 1 {
        Some(MessageTag::Unchoke)
    } else if tag == 2 {
        Some(MessageTag::Interested)
    } else if tag == 3 {
        Some(MessageTag::NotInterested)
    } else if tag == 4 {
        Some(MessageTag::Have)
    } else if tag == 5 {
        Some(MessageTag::Bitfield)
    } else if tag == 6 {
        Some(MessageTag::Request)
    } else if tag == 7 {
        Some(MessageTag::Piece)
    } else if tag == 8 {
        Some(MessageTag::Cancel)
    } else {
        None
    }
}

impl MessageTag {
    /// The byte that stands for the tag on the wire.
    pub open spec fn spec_byte(self) -> u8 {
        match self {
            MessageTag::Choke => 0,
            MessageTag::Unchoke => 1,
            MessageTag::Interested => 2,
            MessageTag::NotInterested => 3,
            MessageTag::Have => 4,
            MessageTag::Bitfield => 5,
            MessageTag::Request => 6,
            MessageTag::Piece => 7,
            MessageTag::Cancel => 8,
        }
    }

    /// The byte that stands for the tag on the wire.
    pub fn to_u8(self) -> (byte: u8)
        ensures
            byte == self.spec_byte(),
            tag_of_byte(byte) == Some(self),
    {
        match self {
            MessageTag::Choke => 0,
            MessageTag::Unchoke => 1,
            MessageTag::Interested => 2,
            MessageTag::NotInterested => 3,
            MessageTag::Have => 4,
            MessageTag::Bitfield => 5,
            MessageTag::Request => 6,
            MessageTag::Piece => 7,
            MessageTag::Cancel => 8,
        }
    }

    /// The tag that a byte stands for. The bytes 0 to 8 stand for tags; any
    /// other byte is refused as an unknown tag.
    pub fn from_u8(tag: u8) -> (res: Result<MessageTag, TorrentError>)
        ensures
            match res {
                Ok(message_tag) => tag_of_byte(tag) == Some(message_tag) && message_tag.spec_byte()
                    == tag,
                Err(error) => tag_of_byte(tag).is_none() && tag > 8 && error
                    == TorrentError::ConnectionClosed(WireCause::UnknownTag(tag)),
            },
    {
        let message_tag = match tag {
            0 => MessageTag::Choke,
            1 => MessageTag::Unchoke,
            2 => MessageTag::Interested,
            3 => MessageTag::NotInterested,
            4 => MessageTag::Have,
            5 => MessageTag::Bitfield,
            6 => MessageTag::Request,
            7 => MessageTag::Piece,
            8 => MessageTag::Cancel,
            tag => {
                return Err(TorrentError::ConnectionClosed(WireCause::UnknownTag(tag)));
            },
        };
        Ok(message_tag)
    }
}

// ---------------------------------------------------------------------------
// Block requests and responses
// ---------------------------------------------------------------------------

/// The payload of a `Request` message: which block of which piece is asked for.
#[derive(Debug, Clone, Copy, PartialEq, Eq)]
pub struct Request {
    index: u32,
    begin: u32,
    length: u32,
}

impl Request {
    /// The index of the piece.
    pub closed spec fn spec_index(&self) -> u32 {
        self.index
    }

    /// The offset of the block within the piece.
    pub closed spec fn spec_begin(&self) -> u32 {
        self.begin
    }

    /// The length of the block.
    pub closed spec fn spec_length(&self) -> u32 {
        self.length
    }

    /// The 12 bytes of the payload: index, offset and length, each as four
    /// bytes with the most significant first.
    pub open spec fn spec_bytes(&self) -> Seq<u8> {
        u32_be(self.spec_index()) + u32_be(self.spec_begin()) + u32_be(self.spec_length())
    }

    /// The request for `length` bytes at offset `begin` of the piece `index`.
    pub fn new(index: u32, begin: u32, length: u32) -> (request: Self)
        ensures
            request.spec_index() == index,
            request.spec_begin() == begin,
            request.spec_length() == length,
    {
        Self { index, begin, length }
    }

    /// The index of the piece.
    pub fn index(&self) -> (index: u32)
        ensures
            index == self.spec_index(),
    {
        self.index
    }

    /// The offset of the block within the piece.
    pub fn begin(&self) -> (begin: u32)
        ensures
            begin == self.spec_begin(),
    {
        self.begin
    }

    /// The length of the block.
    pub fn length(self) -> (length: u32)
        ensures
            length == self.spec_length(),
    {
        self.length
    }

    /// Packs the request into the 12 bytes of its payload.
    pub fn to_bytes(&self) -> (bytes: Vec<u8>)
        ensures
            bytes@ == self.spec_bytes(),
            bytes@.len() == 12,
    {
        let mut bytes: Vec<u8> = Vec::new();
        bytes.extend_from_slice(u32_to_be(self.index).as_slice());
        bytes.extend_from_slice(u32_to_be(self.begin).as_slice());
        bytes.extend_from_slice(u32_to_be(self.length).as_slice());
        assert(bytes@ =~= self.spec_bytes());
        bytes
    }

    /// Unpacks a request from the 12 bytes of its payload; any other number
    /// of bytes is refused.
    pub fn from_bytes(bytes: &[u8]) -> (res: Result<Request, TorrentError>)
        ensures
            match res {
                Ok(request) => {
                    &&& bytes@.len() == 12
                    &&& request.spec_index() == be_u32(bytes@.subrange(0, 4))
                    &&& request.spec_begin() == be_u32(bytes@.subrange(4, 8))
                    &&& request.spec_length() == be_u32(bytes@.subrange(8, 12))
                },
                Err(error) => bytes@.len() != 12 && error == TorrentError::ConnectionClosed(
                    WireCause::ShortPayload,
                ),
            },
    {
        if bytes.len() != 12 {
            return Err(TorrentError::ConnectionClosed(WireCause::ShortPayload));
        }
        Ok(
            Request {
                index: u32_from_be(bytes, 0),
                begin: u32_from_be(bytes, 4),
                length: u32_from_be(bytes, 8),
            },
        )
    }
}

/// Unpacking a packed request gives the request back.
pub proof fn lemma_request_roundtrip(request: Request)
    ensures
        request.spec_bytes().len() == 12,
        be_u32(request.spec_bytes().subrange(0, 4)) == request.spec_index(),
        be_u32(request.spec_bytes().subrange(4, 8)) == request.spec_begin(),
        be_u32(request.spec_bytes().subrange(8, 12)) == request.spec_length(),
{
    let b = request.spec_bytes();
    lemma_be_u32_of_u32_be(request.spec_index());
    lemma_be_u32_of_u32_be(request.spec_begin());
    lemma_be_u32_of_u32_be(request.spec_length());
    assert(b.subrange(0, 4) =~= u32_be(request.spec_index()));
    assert(b.subrange(4, 8) =~= u32_be(request.spec_begin()));
    assert(b.subrange(8, 12) =~= u32_be(request.spec_length()));
}

/// The payload of a `Piece` message: one block of one piece.
#[derive(Debug, Clone, PartialEq, Eq)]
pub struct Piece {
    index: u32,
    begin: u32,
    block: Vec<u8>,
}

impl Piece {
    /// The index of the piece.
    pub closed spec fn spec_index(&self) -> u32 {
        self.index
    }

    /// The offset of the block within the piece.
    pub closed spec fn spec_begin(&self) -> u32 {
        self.begin
    }

    /// The bytes of the block.
    pub closed spec fn spec_block(&self) -> Seq<u8> {
        self.block@
    }

    /// Unpacks the payload of a `Piece` message: four bytes of index, four
    /// bytes of offset, each with the most significant byte first, then the
    /// block. A payload of fewer than eight bytes is refused.
    pub fn from_u8(bytes: &[u8]) -> (res: Result<Self, TorrentError>)
        ensures
            match res {
                Ok(piece) => {
                    &&& bytes@.len() >= 8
                    &&& piece.spec_index() == be_u32(bytes@.subrange(0, 4))
                    &&& piece.spec_begin() == be_u32(bytes@.subrange(4, 8))
                    &&& piece.spec_block() == bytes@.subrange(8, bytes@.len() as int)
                },
                Err(error) => bytes@.len() < 8 && error == TorrentError::ConnectionClosed(
                    WireCause::ShortPayload,
                ),
            },
    {
        let len = bytes.len();
        if len < 8 {
            return Err(TorrentError::ConnectionClosed(WireCause::ShortPayload));
        }
        Ok(
            Self {
                index: u32_from_be(bytes, 0),
                begin: u32_from_be(bytes, 4),
                block: slice_to_vec(slice_subrange(bytes, 8, len)),
            },
        )
    }

    /// The index of the piece.
    pub fn index(&self) -> (index: u32)
        ensures
            index == self.spec_index(),
    {
        self.index
    }

    /// The offset of the block within the piece.
    pub fn begin(&self) -> (begin: u32)
        ensures
            begin == self.spec_begin(),
    {
        self.begin
    }

    /// The bytes of the block.
    pub fn block(&self) -> (block: &[u8])
        ensures
            block@ == self.spec_block(),
    {
        self.block.as_slice()
    }
}

// ---------------------------------------------------------------------------
// Framed messages
// ---------------------------------------------------------------------------

/// A message: its tag and its payload, whose meaning depends on the tag.
#[derive(Debug, Clone, PartialEq, Eq)]
pub struct Message {
    pub tag: MessageTag,
    pub payload: Vec<u8>,
}

/// What was read from the wire: a message, or a keep-alive, which has no tag
/// and no payload and is to be passed over.
#[derive(Debug, Clone, PartialEq, Eq)]
pub enum Frame {
    KeepAlive,
    Message(Message),
}

/// The frame of a message: the length of tag and payload as four bytes with
/// the most significant first, the tag's byte, the payload.
pub open spec fn frame_of(tag: MessageTag, payload: Seq<u8>) -> Seq<u8> {
    u32_be((payload.len() + 1) as u32) + seq![tag.spec_byte()] + payload
}

/// The bytes that a `bytes::BytesMut` holds.
pub uninterp spec fn buffer_bytes(buffer: BytesMut) -> Seq<u8>;

/// The growable byte buffer of the `bytes` crate.
#[verifier::external_type_specification]
#[verifier::external_body]
pub struct ExBytesMut(bytes::BytesMut);

/// Calls `BytesMut::new`. Trusted: the new buffer holds no bytes.
#[verifier::external_body]
fn buffer_new() -> (buffer: BytesMut)
    ensures
        buffer_bytes(buffer) == Seq::<u8>::empty(),
{
    BytesMut::new()
}

/// Calls `BytesMut::reserve`, which panics when the capacity asked for
/// overflows. Trusted: the bytes held stay as they are.
#[verifier::external_body]
fn buffer_reserve(buffer: &mut BytesMut, additional: usize)
    requires
        buffer_bytes(*old(buffer)).len() + additional <= isize::MAX,
    ensures
        buffer_bytes(*final(buffer)) == buffer_bytes(*old(buffer)),
{
    buffer.reserve(additional)
}

/// Calls `BytesMut::extend_from_slice`. Trusted: the bytes of `extend` are
/// appended to the bytes held.
#[verifier::external_body]
fn buffer_extend_from_slice(buffer: &mut BytesMut, extend: &[u8])
    requires
        buffer_bytes(*old(buffer)).len() + extend@.len() <= isize::MAX,
    ensures
        buffer_bytes(*final(buffer)) == buffer_bytes(*old(buffer)) + extend@,
{
    buffer.extend_from_slice(extend)
}

/// Calls `bytes::BufMut::put_u8`. Trusted: the byte is appended to the bytes
/// held.
#[verifier::external_body]
fn buffer_put_u8(buffer: &mut BytesMut, n: u8)
    requires
        buffer_bytes(*old(buffer)).len() + 1 <= isize::MAX,
    ensures
        buffer_bytes(*final(buffer)) == buffer_bytes(*old(buffer)).push(n),
{
    bytes::BufMut::put_u8(buffer, n)
}

impl Message {
    /// The message can be framed: tag and payload together are no longer
    /// than a 32-bit length can say, nor than a buffer can hold.
    pub open spec fn frameable(&self) -> bool {
        self.payload@.len() + 1 <= u32::MAX && self.payload@.len() + 5 <= isize::MAX
    }

    /// Tells whether the message can be framed.
    pub fn can_frame(&self) -> (yes: bool)
        ensures
            yes == self.frameable(),
    {
        let len = self.payload.len();
        len < u32::MAX as usize && len <= isize::MAX as usize - 5
    }

    /// The frame of the message, ready to be written in one go.
    pub fn to_bytes(&self) -> (buffer: BytesMut)
        requires
            self.frameable(),
        ensures
            buffer_bytes(buffer) == frame_of(self.tag, self.payload@),
    {
        let mut buffer = buffer_new();
        let len_slice = u32_to_be(self.payload.len() as u32 + 1);
        buffer_reserve(&mut buffer, 4 + self.payload.len() + 1);
        buffer_extend_from_slice(&mut buffer, len_slice.as_slice());
        buffer_put_u8(&mut buffer, self.tag.to_u8());
        buffer_extend_from_slice(&mut buffer, self.payload.as_slice());
        assert(buffer_bytes(buffer) =~= frame_of(self.tag, self.payload@));
        buffer
    }
}

/// How many bytes follow a length prefix.
pub fn frame_length(prefix: &[u8; 4]) -> (length: u32)
    ensures
        length == be_u32(prefix@),
{
    let length = u32_from_be(prefix.as_slice(), 0);
    assert(prefix@.subrange(0, 4) =~= prefix@);
    length
}

/// What the bytes behind a length prefix hold.
pub open spec fn frame_body(body: Seq<u8>) -> Result<Option<(MessageTag, Seq<u8>)>, TorrentError> {
    if body.len() == 0 {
        Ok(None)
    } else {
        match tag_of_byte(body[0]) {
            Some(tag) => Ok(Some((tag, body.subrange(1, body.len() as int)))),
            None => Err(TorrentError::ConnectionClosed(WireCause::UnknownTag(body[0]))),
        }
    }
}

/// Splits the bytes behind a length prefix into tag and payload. No bytes
/// mean a keep-alive; a first byte that is no tag is refused.
pub fn read_frame(body: &[u8]) -> (res: Result<Frame, TorrentError>)
    ensures
        match res {
            Ok(Frame::KeepAlive) => frame_body(body@) == Ok::<
                Option<(MessageTag, Seq<u8>)>,
                TorrentError,
            >(None),
            Ok(Frame::Message(message)) => frame_body(body@) == Ok::<
                Option<(MessageTag, Seq<u8>)>,
                TorrentError,
            >(Some((message.tag, message.payload@))),
            Err(error) => frame_body(body@) == Err::<Option<(MessageTag, Seq<u8>)>, TorrentError>(
                error,
            ),
        },
{
    let len = body.len();
    if len == 0 {
        return Ok(Frame::KeepAlive);
    }
    match MessageTag::from_u8(body[0]) {
        Err(error) => Err(error),
        Ok(tag) => {
            let payload = slice_to_vec(slice_subrange(body, 1, len));
            Ok(Frame::Message(Message { tag, payload }))
        },
    }
}

/// Reading undoes framing: the prefix of a frame says how many bytes follow
/// it, and those bytes hold the tag and the payload that were framed.
pub proof fn lemma_frame_roundtrip(tag: MessageTag, payload: Seq<u8>)
    requires
        payload.len() + 1 <= u32::MAX,
    ensures
        frame_of(tag, payload).len() == 4 + 1 + payload.len(),
        be_u32(frame_of(tag, payload).subrange(0, 4)) == payload.len() + 1,
        frame_body(frame_of(tag, payload).subrange(4, frame_of(tag, payload).len() as int)) == Ok::<
            Option<(MessageTag, Seq<u8>)>,
            TorrentError,
        >(Some((tag, payload))),
{
    let frame = frame_of(tag, payload);
    let n = (payload.len() + 1) as u32;
    lemma_be_u32_of_u32_be(n);
    assert(frame.subrange(0, 4) =~= u32_be(n));
    let body = frame.subrange(4, frame.len() as int);
    assert(body[0] == tag.spec_byte());
    assert(body.subrange(1, body.len() as int) =~= payload);
}

} // verus!
