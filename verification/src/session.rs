//! One connection to one peer, as a state machine: the handshake first, then
//! framed messages. The state machine decides; reading and writing the
//! socket is the caller's part.

use crate::error::{TorrentError, WireCause};
use crate::peer::{check_reply, handshake_bytes, reply_outcome, Frame, Handshake, Message, MessageTag};
use vstd::prelude::*;

verus! {

/// Where a connection stands.
#[derive(Debug, Clone, Copy, PartialEq, Eq, Structural)]
pub enum SessionState {
    /// Nothing was sent yet.
    Connecting,
    /// The handshake was sent; the reply is awaited.
    HandshakeSent,
    /// The reply echoed the identity hash; no message was exchanged yet.
    HandshakeVerified,
    /// Messages are exchanged.
    Open,
    /// The connection is over.
    Closed,
}

/// What is to be done next to get a connection ready for block requests.
#[derive(Debug, Clone, Copy, PartialEq, Eq, Structural)]
pub enum SetupStep {
    /// Read a frame and hand it to `receive`.
    Receive,
    /// Send `Interested`.
    SendInterested,
    /// Blocks may be requested.
    Ready,
    /// The connection cannot be made ready: the handshake is not verified,
    /// the connection is closed, or the peer's first message was not its
    /// bitfield.
    Refuse,
}

/// One connection to one peer.
#[derive(Debug, Clone)]
pub struct Session {
    state: SessionState,
    info_hash: [u8; 20],
    local_id: [u8; 20],
    peer_id: [u8; 20],
    bitfield_seen: bool,
    interested_sent: bool,
    unchoked: bool,
}

/// The mathematical value of a `Session`.
pub struct SessionView {
    pub state: SessionState,
    /// The identity hash of the content.
    pub info_hash: Seq<u8>,
    /// The identifier of this client.
    pub local_id: Seq<u8>,
    /// The identifier of the remote peer, known once the handshake is verified.
    pub peer_id: Seq<u8>,
    /// The first message after the handshake was a `Bitfield`.
    pub bitfield_seen: bool,
    /// `Interested` was sent.
    pub interested_sent: bool,
    /// The peer answered `Interested` with `Unchoke`, and has not choked since.
    pub unchoked: bool,
}

impl View for Session {
    type V = SessionView;

    closed spec fn view(&self) -> SessionView {
        SessionView {
            state: self.state,
            info_hash: self.info_hash@,
            local_id: self.local_id@,
            peer_id: self.peer_id@,
            bitfield_seen: self.bitfield_seen,
            interested_sent: self.interested_sent,
            unchoked: self.unchoked,
        }
    }
}

impl SessionView {
    /// The session with its state set to `state`.
    pub open spec fn with_state(self, state: SessionState) -> SessionView {
        SessionView { state, ..self }
    }

    /// Messages can be exchanged: the handshake is verified and the
    /// connection is not closed.
    pub open spec fn framing(self) -> bool {
        self.state == SessionState::HandshakeVerified || self.state == SessionState::Open
    }

    /// Blocks may be requested: the peer's first message was its bitfield,
    /// and it answered `Interested` with `Unchoke`.
    pub open spec fn may_request(self) -> bool {
        self.state == SessionState::Open && self.bitfield_seen && self.interested_sent
            && self.unchoked
    }

    /// The next step towards block requests: wait for the peer's first
    /// message, which must be its bitfield; then say `Interested`; then wait
    /// for `Unchoke`.
    pub open spec fn setup_step(self) -> SetupStep {
        if !self.framing() {
            SetupStep::Refuse
        } else if self.state == SessionState::HandshakeVerified {
            SetupStep::Receive
        } else if !self.bitfield_seen {
            SetupStep::Refuse
        } else if !self.interested_sent {
            SetupStep::SendInterested
        } else if !self.unchoked {
            SetupStep::Receive
        } else {
            SetupStep::Ready
        }
    }

    /// The session after a frame was received, while messages can be
    /// exchanged. A keep-alive changes nothing. The first message opens the
    /// session, and counts as the bitfield if it is one. `Unchoke` counts
    /// once `Interested` was sent; `Choke` takes it back. Every other
    /// message leaves the session as it is.
    pub open spec fn after_receive(self, tag: Option<MessageTag>) -> SessionView {
        match tag {
            None => self,
            Some(tag) => {
                let first = self.state == SessionState::HandshakeVerified;
                let opened = SessionView {
                    state: SessionState::Open,
                    bitfield_seen: if first {
                        tag == MessageTag::Bitfield
                    } else {
                        self.bitfield_seen
                    },
                    ..self
                };
                if tag == MessageTag::Unchoke {
                    SessionView { unchoked: opened.interested_sent, ..opened }
                } else if tag == MessageTag::Choke {
                    SessionView { unchoked: false, ..opened }
                } else {
                    opened
                }
            },
        }
    }

    /// The session after a message was sent, while messages can be
    /// exchanged: `Interested` is recorded, `NotInterested` takes it back
    /// together with the peer's `Unchoke`.
    pub open spec fn after_send(self, tag: MessageTag) -> SessionView {
        if tag == MessageTag::Interested {
            SessionView { interested_sent: true, ..self }
        } else if tag == MessageTag::NotInterested {
            SessionView { interested_sent: false, unchoked: false, ..self }
        } else {
            self
        }
    }

    /// Whether this message may be sent now: anything while messages can be
    /// exchanged, but a `Request` only when blocks may be requested.
    pub open spec fn may_send(self, tag: MessageTag) -> bool {
        self.framing() && (tag == MessageTag::Request ==> self.may_request())
    }
}

/// The tag of a frame; none for a keep-alive.
pub open spec fn frame_tag(frame: &Frame) -> Option<MessageTag> {
    match frame {
        Frame::KeepAlive => None,
        Frame::Message(message) => Some(message.tag),
    }
}

impl Session {
    /// A connection on which nothing was sent yet.
    pub fn new(info_hash: [u8; 20], local_id: [u8; 20]) -> (session: Session)
        ensures
            session@ == (SessionView {
                state: SessionState::Connecting,
                info_hash: info_hash@,
                local_id: local_id@,
                peer_id: Seq::new(20, |i: int| 0u8),
                bitfield_seen: false,
                interested_sent: false,
                unchoked: false,
            }),
    {
        let peer_id: [u8; 20] = [0u8; 20];
        assert(peer_id@ =~= Seq::new(20, |i: int| 0u8));
        Session {
            state: SessionState::Connecting,
            info_hash,
            local_id,
            peer_id,
            bitfield_seen: false,
            interested_sent: false,
            unchoked: false,
        }
    }

    /// Where the connection stands.
    pub fn state(&self) -> (state: SessionState)
        ensures
            state == self@.state,
    {
        self.state
    }

    /// The identifier of the remote peer: the one from its handshake reply,
    /// once that is verified.
    pub fn peer_id(&self) -> (peer_id: [u8; 20])
        ensures
            peer_id@ == self@.peer_id,
    {
        self.peer_id
    }

    /// Tells whether blocks may be requested.
    pub fn may_request(&self) -> (yes: bool)
        ensures
            yes == self@.may_request(),
    {
        matches!(self.state, SessionState::Open) && self.bitfield_seen && self.interested_sent
            && self.unchoked
    }

    /// Tells what is to be done next to get the connection ready for block
    /// requests.
    pub fn setup_step(&self) -> (step: SetupStep)
        ensures
            step == self@.setup_step(),
            step == SetupStep::Ready <==> self@.may_request(),
    {
        match self.state {
            SessionState::HandshakeVerified => SetupStep::Receive,
            SessionState::Open => {
                if !self.bitfield_seen {
                    SetupStep::Refuse
                } else if !self.interested_sent {
                    SetupStep::SendInterested
                } else if !self.unchoked {
                    SetupStep::Receive
                } else {
                    SetupStep::Ready
                }
            },
            _ => SetupStep::Refuse,
        }
    }

    /// The first step: returns the 68 bytes of the handshake to send. On a
    /// connection that has gone further the step is out of order and closes it.
    pub fn begin_handshake(&mut self) -> (res: Result<Vec<u8>, TorrentError>)
        ensures
            match res {
                Ok(bytes) => {
                    &&& old(self)@.state == SessionState::Connecting
                    &&& final(self)@ == old(self)@.with_state(SessionState::HandshakeSent)
                    &&& bytes@ == handshake_bytes(old(self)@.info_hash, old(self)@.local_id)
                },
                Err(error) => {
                    &&& old(self)@.state != SessionState::Connecting
                    &&& final(self)@ == old(self)@.with_state(SessionState::Closed)
                    &&& error == TorrentError::ConnectionClosed(WireCause::OutOfOrder)
                },
            },
    {
        match self.state {
            SessionState::Connecting => {
                self.state = SessionState::HandshakeSent;
                Ok(Handshake::new(self.info_hash, self.local_id).to_bytes())
            },
            _ => {
                self.state = SessionState::Closed;
                Err(TorrentError::ConnectionClosed(WireCause::OutOfOrder))
            },
        }
    }

    /// The second step: takes the 68 bytes that the peer sent back. The
    /// handshake is verified only if they echo the identity hash that was
    /// sent; the peer's identifier is then the one of the reply. A reply that
    /// is malformed or names another hash closes the connection with
    /// `HandshakeFailed`.
    pub fn accept_handshake(&mut self, reply: &[u8]) -> (res: Result<(), TorrentError>)
        ensures
            match res {
                Ok(()) => {
                    &&& old(self)@.state == SessionState::HandshakeSent
                    &&& reply_outcome(old(self)@.info_hash, reply@) matches Ok(peer_id)
                    &&& final(self)@ == (SessionView {
                        state: SessionState::HandshakeVerified,
                        peer_id,
                        ..old(self)@
                    })
                },
                Err(error) => {
                    &&& final(self)@ == old(self)@.with_state(SessionState::Closed)
                    &&& if old(self)@.state == SessionState::HandshakeSent {
                        reply_outcome(old(self)@.info_hash, reply@) == Err::<Seq<u8>, TorrentError>(
                            error,
                        )
                    } else {
                        error == TorrentError::ConnectionClosed(WireCause::OutOfOrder)
                    }
                },
            },
    {
        match self.state {
            SessionState::HandshakeSent => match check_reply(&self.info_hash, reply) {
                Ok(peer_id) => {
                    self.peer_id = peer_id;
                    self.state = SessionState::HandshakeVerified;
                    Ok(())
                },
                Err(error) => {
                    self.state = SessionState::Closed;
                    Err(error)
                },
            },
            _ => {
                self.state = SessionState::Closed;
                Err(TorrentError::ConnectionClosed(WireCause::OutOfOrder))
            },
        }
    }

    /// Records a frame that was received. Before the handshake is verified,
    /// or after the connection was closed, a frame is out of order and
    /// closes the connection.
    pub fn receive(&mut self, frame: &Frame) -> (res: Result<(), TorrentError>)
        ensures
            match res {
                Ok(()) => old(self)@.framing() && final(self)@ == old(self)@.after_receive(
                    frame_tag(frame),
                ),
                Err(error) => {
                    &&& !old(self)@.framing()
                    &&& final(self)@ == old(self)@.with_state(SessionState::Closed)
                    &&& error == TorrentError::ConnectionClosed(WireCause::OutOfOrder)
                },
            },
    {
        let first = match self.state {
            SessionState::HandshakeVerified => true,
            SessionState::Open => false,
            _ => {
                self.state = SessionState::Closed;
                return Err(TorrentError::ConnectionClosed(WireCause::OutOfOrder));
            },
        };
        match frame {
            Frame::KeepAlive => {},
            Frame::Message(message) => {
                self.state = SessionState::Open;
                if first {
                    self.bitfield_seen = matches!(message.tag, MessageTag::Bitfield);
                }
                match message.tag {
                    MessageTag::Unchoke => {
                        self.unchoked = self.interested_sent;
                    },
                    MessageTag::Choke => {
                        self.unchoked = false;
                    },
                    _ => {},
                }
            },
        }
        Ok(())
    }

    /// Asks leave to send a message, and records it. A `Request` before the
    /// peer's bitfield and its `Unchoke` to `Interested` is refused, and so
    /// is any message before the handshake is verified; the session stays as
    /// it is then.
    pub fn send(&mut self, tag: MessageTag) -> (res: Result<(), TorrentError>)
        ensures
            match res {
                Ok(()) => old(self)@.may_send(tag) && final(self)@ == old(self)@.after_send(tag),
                Err(error) => {
                    &&& !old(self)@.may_send(tag)
                    &&& final(self)@ == old(self)@
                    &&& error == TorrentError::ConnectionClosed(WireCause::OutOfOrder)
                },
            },
    {
        let framing = matches!(self.state, SessionState::HandshakeVerified | SessionState::Open);
        if !framing {
            return Err(TorrentError::ConnectionClosed(WireCause::OutOfOrder));
        }
        match tag {
            MessageTag::Request => {
                if !self.may_request() {
                    return Err(TorrentError::ConnectionClosed(WireCause::OutOfOrder));
                }
            },
            MessageTag::Interested => {
                self.interested_sent = true;
            },
            MessageTag::NotInterested => {
                self.interested_sent = false;
                self.unchoked = false;
            },
            _ => {},
        }
        Ok(())
    }

    /// Closes the connection.
    pub fn close(&mut self)
        ensures
            final(self)@ == old(self)@.with_state(SessionState::Closed),
    {
        self.state = SessionState::Closed;
    }
}

/// No block is requested before the handshake is verified, the peer's
/// bitfield has come first, and `Interested` was answered with `Unchoke`.
pub proof fn lemma_request_needs_unchoke(session: SessionView)
    requires
        session.may_send(MessageTag::Request),
    ensures
        session.state == SessionState::Open,
        session.bitfield_seen,
        session.interested_sent,
        session.unchoked,
{
}

} // verus!
