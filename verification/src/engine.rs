//! The piece engine: the acquisition of one piece over one open session,
//! block by block. It decides what to ask for and what to make of each
//! answer; sending and receiving is the caller's part.

use crate::error::{TorrentError, WireCause};
use crate::hash::{hashes_equal, sha1, sha1_digest};
use crate::packing::be_u32;
use crate::peer::{lemma_request_roundtrip, Message, MessageTag, Piece, Request};
use vstd::prelude::*;

verus! {

/// The largest block that is asked for by default: 16 KiB.
pub const BLOCK_MAX: u32 = 16384;

/// The acquisition of one piece.
#[derive(Debug, Clone)]
pub struct PieceEngine {
    index: u32,
    expected_hash: [u8; 20],
    size: u32,
    block_size: u32,
    received: Vec<u8>,
}

/// The mathematical value of a `PieceEngine`.
pub struct EngineView {
    /// The index of the piece.
    pub index: u32,
    /// The hash that the piece must have.
    pub expected_hash: Seq<u8>,
    /// The length of the piece.
    pub size: nat,
    /// The largest block that is asked for.
    pub block_size: nat,
    /// The bytes of the piece that have come so far, from its start on.
    pub received: Seq<u8>,
}

/// What an answer did to the acquisition.
#[derive(Debug, Clone, Copy, PartialEq, Eq, Structural)]
pub enum Step {
    /// The message was no block; it was passed over.
    Ignored,
    /// A block was added; more are to come.
    Continue,
    /// The last block was added, and the piece has the expected hash.
    Complete,
}

impl EngineView {
    /// The engine asks for blocks of at least one byte and has not received
    /// more than the piece holds.
    pub open spec fn wf(self) -> bool {
        &&& self.block_size > 0
        &&& self.received.len() <= self.size
        &&& self.size <= u32::MAX
        &&& self.block_size <= u32::MAX
        &&& self.expected_hash.len() == 20
    }

    /// All bytes of the piece have come.
    pub open spec fn complete(self) -> bool {
        self.received.len() == self.size
    }

    /// The offset of the next block: the number of bytes that have come.
    pub open spec fn next_begin(self) -> nat {
        self.received.len()
    }

    /// The length of the next block: the block size, or what is left of the
    /// piece if that is less.
    pub open spec fn next_length(self) -> nat {
        if self.block_size <= self.size - self.received.len() {
            self.block_size
        } else {
            (self.size - self.received.len()) as nat
        }
    }

    /// The block `(index, begin, block)` is the one that is asked for next.
    pub open spec fn expects(self, index: u32, begin: u32, block: Seq<u8>) -> bool {
        &&& !self.complete()
        &&& index == self.index
        &&& begin == self.next_begin()
        &&& block.len() == self.next_length()
    }

    /// The engine with `block` added to what has come.
    pub open spec fn with_block(self, block: Seq<u8>) -> EngineView {
        EngineView { received: self.received + block, ..self }
    }

    /// The piece is whole and has the expected hash.
    pub open spec fn verified(self) -> bool {
        self.complete() && sha1(self.received) == self.expected_hash
    }
}

impl View for PieceEngine {
    type V = EngineView;

    closed spec fn view(&self) -> EngineView {
        EngineView {
            index: self.index,
            expected_hash: self.expected_hash@,
            size: self.size as nat,
            block_size: self.block_size as nat,
            received: self.received@,
        }
    }
}

impl PieceEngine {
    /// What the engine keeps true of itself.
    pub closed spec fn inv(&self) -> bool {
        self.block_size > 0 && self.received@.len() <= self.size
    }

    /// An engine that holds its invariant has a well-formed value.
    pub proof fn lemma_inv(&self)
        requires
            self.inv(),
        ensures
            self@.wf(),
    {
    }

    /// The acquisition of the piece `index`, which is `size` bytes long and
    /// must hash to `expected_hash`, in blocks of at most `block_size`
    /// bytes. `None` when the block size is zero, or when the index or the
    /// size is more than the wire's 32 bits can say.
    pub fn new(index: usize, expected_hash: [u8; 20], size: usize, block_size: u32) -> (res: Option<
        PieceEngine,
    >)
        ensures
            match res {
                Some(engine) => {
                    &&& engine.inv()
                    &&& block_size > 0 && index <= u32::MAX && size <= u32::MAX
                    &&& engine@ == (EngineView {
                        index: index as u32,
                        expected_hash: expected_hash@,
                        size: size as nat,
                        block_size: block_size as nat,
                        received: Seq::<u8>::empty(),
                    })
                },
                None => block_size == 0 || index > u32::MAX || size > u32::MAX,
            },
    {
        if block_size == 0 || index as u64 > u32::MAX as u64 || size as u64 > u32::MAX as u64 {
            return None;
        }
        Some(
            PieceEngine {
                index: index as u32,
                expected_hash,
                size: size as u32,
                block_size,
                received: Vec::new(),
            },
        )
    }

    /// Tells whether all bytes of the piece have come.
    pub fn is_complete(&self) -> (yes: bool)
        requires
            self.inv(),
        ensures
            yes == self@.complete(),
    {
        self.received.len() == self.size as usize
    }

    /// The block to ask for next: the lowest offset that has not come, and
    /// as many bytes as the block size and the rest of the piece allow.
    /// `None` when the piece is whole.
    pub fn next_request(&self) -> (res: Option<Request>)
        requires
            self.inv(),
        ensures
            match res {
                Some(request) => {
                    &&& !self@.complete()
                    &&& request.spec_index() == self@.index
                    &&& request.spec_begin() == self@.next_begin()
                    &&& request.spec_length() == self@.next_length()
                    &&& 0 < request.spec_length() <= self@.block_size
                },
                None => self@.complete(),
            },
    {
        let have = self.received.len() as u32;
        if have >= self.size {
            return None;
        }
        let left = self.size - have;
        let length = if self.block_size <= left {
            self.block_size
        } else {
            left
        };
        Some(Request::new(self.index, have, length))
    }

    /// The `Request` message to send next; `None` when the piece is whole.
    pub fn next_message(&self) -> (res: Option<Message>)
        requires
            self.inv(),
        ensures
            match res {
                Some(message) => {
                    &&& !self@.complete()
                    &&& message.tag == MessageTag::Request
                    &&& message.payload@.len() == 12
                    &&& be_u32(message.payload@.subrange(0, 4)) == self@.index
                    &&& be_u32(message.payload@.subrange(4, 8)) == self@.next_begin()
                    &&& be_u32(message.payload@.subrange(8, 12)) == self@.next_length()
                },
                None => self@.complete(),
            },
    {
        match self.next_request() {
            None => None,
            Some(request) => {
                proof {
                    lemma_request_roundtrip(request);
                }
                Some(Message { tag: MessageTag::Request, payload: request.to_bytes() })
            },
        }
    }

    /// Adds a block that has come. It must be the block that is asked for
    /// next: of this piece, at the offset reached, of the length asked for.
    /// Any other block is refused and nothing is added.
    pub fn accept_block(&mut self, piece: &Piece) -> (res: Result<(), TorrentError>)
        requires
            old(self).inv(),
        ensures
            final(self).inv(),
            match res {
                Ok(()) => {
                    &&& old(self)@.expects(
                        piece.spec_index(),
                        piece.spec_begin(),
                        piece.spec_block(),
                    )
                    &&& final(self)@ == old(self)@.with_block(piece.spec_block())
                },
                Err(error) => {
                    &&& !old(self)@.expects(
                        piece.spec_index(),
                        piece.spec_begin(),
                        piece.spec_block(),
                    )
                    &&& final(self)@ == old(self)@
                    &&& error == TorrentError::ConnectionClosed(WireCause::BlockMismatch)
                },
            },
    {
        match self.next_request() {
            None => Err(TorrentError::ConnectionClosed(WireCause::BlockMismatch)),
            Some(request) => {
                let block = piece.block();
                if piece.index() != request.index() || piece.begin() != request.begin()
                    || block.len() != request.length() as usize {
                    return Err(TorrentError::ConnectionClosed(WireCause::BlockMismatch));
                }
                self.received.extend_from_slice(block);
                assert(self@.received == old(self)@.received + piece.spec_block());
                Ok(())
            },
        }
    }

    /// Tells whether the piece is whole and `digest` is the hash it must
    /// have.
    pub fn check_digest(&self, digest: &[u8; 20]) -> (yes: bool)
        requires
            self.inv(),
        ensures
            yes == (self@.complete() && digest@ == self@.expected_hash),
    {
        self.is_complete() && hashes_equal(digest, &self.expected_hash)
    }

    /// Tells whether the piece is whole and has the expected hash: whether
    /// SHA-1 of the bytes that have come is the hash the piece must have.
    pub fn verify(&self) -> (yes: bool)
        requires
            self.inv(),
        ensures
            yes == self@.verified(),
    {
        let digest = sha1_digest(self.received.as_slice());
        self.check_digest(&digest)
    }

    /// What a message does to the acquisition.
    pub open spec fn outcome(before: EngineView, message: &Message) -> Result<
        (Step, EngineView),
        TorrentError,
    > {
        if message.tag != MessageTag::Piece {
            Ok((Step::Ignored, before))
        } else if message.payload@.len() < 8 {
            Err(TorrentError::ConnectionClosed(WireCause::ShortPayload))
        } else {
            let index = be_u32(message.payload@.subrange(0, 4));
            let begin = be_u32(message.payload@.subrange(4, 8));
            let block = message.payload@.subrange(8, message.payload@.len() as int);
            if !before.expects(index, begin, block) {
                Err(TorrentError::ConnectionClosed(WireCause::BlockMismatch))
            } else {
                let after = before.with_block(block);
                if !after.complete() {
                    Ok((Step::Continue, after))
                } else if sha1(after.received) == after.expected_hash {
                    Ok((Step::Complete, after))
                } else {
                    Err(TorrentError::PieceCorrupt(before.index as usize))
                }
            }
        }
    }

    /// Takes a message that has come. A message that is no `Piece` is passed
    /// over. A block is added if it is the one asked for, and refused
    /// otherwise. With the last block the piece is hashed: it is complete
    /// only if SHA-1 of its bytes is the expected hash, and corrupt
    /// otherwise.
    pub fn handle(&mut self, message: &Message) -> (res: Result<Step, TorrentError>)
        requires
            old(self).inv(),
        ensures
            final(self).inv(),
            match res {
                Ok(step) => Self::outcome(old(self)@, message) == Ok::<
                    (Step, EngineView),
                    TorrentError,
                >((step, final(self)@)),
                Err(error) => Self::outcome(old(self)@, message) == Err::<
                    (Step, EngineView),
                    TorrentError,
                >(error),
            },
            res == Ok::<Step, TorrentError>(Step::Complete) ==> final(self)@.verified(),
    {
        match message.tag {
            MessageTag::Piece => {},
            _ => {
                return Ok(Step::Ignored);
            },
        }
        let piece = match Piece::from_u8(message.payload.as_slice()) {
            Ok(piece) => piece,
            Err(error) => {
                return Err(error);
            },
        };
        match self.accept_block(&piece) {
            Err(error) => Err(error),
            Ok(()) => {
                if !self.is_complete() {
                    Ok(Step::Continue)
                } else if self.verify() {
                    Ok(Step::Complete)
                } else {
                    Err(TorrentError::PieceCorrupt(self.index as usize))
                }
            },
        }
    }

    /// The bytes of the piece that have come.
    pub fn into_bytes(self) -> (bytes: Vec<u8>)
        ensures
            bytes@ == self@.received,
    {
        self.received
    }
}

/// The blocks partition the piece: while the piece is not whole, the next
/// block starts where the last one ended, holds at least one byte and at
/// most the block size, and stays within the piece; once it is added the
/// engine is well formed again, and the piece is whole exactly when the
/// block reached its end.
pub proof fn lemma_block_progress(engine: EngineView, block: Seq<u8>)
    requires
        engine.wf(),
        !engine.complete(),
        block.len() == engine.next_length(),
    ensures
        0 < engine.next_length() <= engine.block_size,
        engine.next_begin() + engine.next_length() <= engine.size,
        engine.with_block(block).wf(),
        engine.with_block(block).next_begin() == engine.next_begin() + engine.next_length(),
        engine.with_block(block).complete() <==> engine.next_begin() + engine.next_length()
            == engine.size,
        engine.next_length() < engine.block_size ==> engine.with_block(block).complete(),
{
}

/// A piece is accepted only with the expected hash: whatever message
/// completes the acquisition, SHA-1 of the bytes that have come is the
/// expected hash, and the bytes are as many as the piece is long.
pub proof fn lemma_complete_means_verified(before: EngineView, message: &Message)
    requires
        PieceEngine::outcome(before, message) matches Ok((Step::Complete, _)),
    ensures
        PieceEngine::outcome(before, message) matches Ok((_, after)) && after.received.len()
            == after.size && sha1(after.received) == after.expected_hash,
{
}

} // verus!
