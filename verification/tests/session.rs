use torrust::error::{HandshakeCause, TorrentError, WireCause};
use torrust::peer::{Frame, Handshake, Message, MessageTag};
use torrust::session::{Session, SessionState, SetupStep};

fn message(tag: MessageTag) -> Frame {
    Frame::Message(Message { tag, payload: Vec::new() })
}

fn out_of_order() -> TorrentError {
    TorrentError::ConnectionClosed(WireCause::OutOfOrder)
}

fn verified() -> Session {
    let mut session = Session::new([1; 20], [2; 20]);
    session.begin_handshake().unwrap();
    session.accept_handshake(&Handshake::new([1; 20], [3; 20]).to_bytes()).unwrap();
    session
}

#[test]
fn session_goes_through_its_states() {
    let mut session = Session::new([1; 20], [2; 20]);
    assert_eq!(session.state(), SessionState::Connecting);
    assert_eq!(session.peer_id(), [0; 20]);
    let sent = session.begin_handshake().unwrap();
    assert_eq!(sent, Handshake::new([1; 20], [2; 20]).to_bytes());
    assert_eq!(session.state(), SessionState::HandshakeSent);
    assert_eq!(session.accept_handshake(&Handshake::new([1; 20], [3; 20]).to_bytes()), Ok(()));
    assert_eq!(session.state(), SessionState::HandshakeVerified);
    assert_eq!(session.peer_id(), [3; 20]);
    assert_eq!(session.receive(&message(MessageTag::Bitfield)), Ok(()));
    assert_eq!(session.state(), SessionState::Open);
    session.close();
    assert_eq!(session.state(), SessionState::Closed);
}

#[test]
fn a_reply_for_other_content_closes_the_session() {
    let mut session = Session::new([1; 20], [2; 20]);
    session.begin_handshake().unwrap();
    assert_eq!(
        session.accept_handshake(&Handshake::new([9; 20], [3; 20]).to_bytes()),
        Err(TorrentError::HandshakeFailed(HandshakeCause::HashMismatch))
    );
    assert_eq!(session.state(), SessionState::Closed);
    assert_eq!(session.peer_id(), [0; 20]);
    let mut session = Session::new([1; 20], [2; 20]);
    session.begin_handshake().unwrap();
    assert_eq!(
        session.accept_handshake(&[0; 68]),
        Err(TorrentError::HandshakeFailed(HandshakeCause::Malformed))
    );
    assert_eq!(session.state(), SessionState::Closed);
}

#[test]
fn steps_out_of_order_close_the_session() {
    let mut session = Session::new([1; 20], [2; 20]);
    assert_eq!(
        session.accept_handshake(&Handshake::new([1; 20], [3; 20]).to_bytes()),
        Err(out_of_order())
    );
    assert_eq!(session.state(), SessionState::Closed);
    assert_eq!(session.begin_handshake(), Err(out_of_order()));
    let mut session = Session::new([1; 20], [2; 20]);
    assert_eq!(session.receive(&message(MessageTag::Bitfield)), Err(out_of_order()));
    assert_eq!(session.state(), SessionState::Closed);
    let mut session = Session::new([1; 20], [2; 20]);
    assert_eq!(session.send(MessageTag::Interested), Err(out_of_order()));
    assert_eq!(session.state(), SessionState::Connecting);
    let mut session = verified();
    assert_eq!(session.begin_handshake(), Err(out_of_order()));
    assert_eq!(session.state(), SessionState::Closed);
    assert_eq!(session.receive(&Frame::KeepAlive), Err(out_of_order()));
}

#[test]
fn requests_wait_for_bitfield_interested_and_unchoke() {
    let mut session = verified();
    assert!(!session.may_request());
    assert_eq!(session.send(MessageTag::Request), Err(out_of_order()));
    assert_eq!(session.receive(&message(MessageTag::Bitfield)), Ok(()));
    assert!(!session.may_request());
    assert_eq!(session.receive(&message(MessageTag::Unchoke)), Ok(()));
    assert!(!session.may_request());
    assert_eq!(session.send(MessageTag::Interested), Ok(()));
    assert!(!session.may_request());
    assert_eq!(session.send(MessageTag::Request), Err(out_of_order()));
    assert_eq!(session.state(), SessionState::Open);
    assert_eq!(session.receive(&message(MessageTag::Unchoke)), Ok(()));
    assert!(session.may_request());
    assert_eq!(session.send(MessageTag::Request), Ok(()));
    assert_eq!(session.receive(&message(MessageTag::Choke)), Ok(()));
    assert!(!session.may_request());
    assert_eq!(session.receive(&message(MessageTag::Unchoke)), Ok(()));
    assert!(session.may_request());
    assert_eq!(session.send(MessageTag::NotInterested), Ok(()));
    assert!(!session.may_request());
}

#[test]
fn the_bitfield_counts_only_as_the_first_message() {
    let mut session = verified();
    assert_eq!(session.receive(&message(MessageTag::Have)), Ok(()));
    assert_eq!(session.state(), SessionState::Open);
    assert_eq!(session.receive(&message(MessageTag::Bitfield)), Ok(()));
    assert_eq!(session.send(MessageTag::Interested), Ok(()));
    assert_eq!(session.receive(&message(MessageTag::Unchoke)), Ok(()));
    assert!(!session.may_request());
}

#[test]
fn keep_alives_change_nothing() {
    let mut session = verified();
    assert_eq!(session.receive(&Frame::KeepAlive), Ok(()));
    assert_eq!(session.state(), SessionState::HandshakeVerified);
    assert_eq!(session.receive(&message(MessageTag::Bitfield)), Ok(()));
    assert_eq!(session.receive(&Frame::KeepAlive), Ok(()));
    assert_eq!(session.send(MessageTag::Interested), Ok(()));
    assert_eq!(session.receive(&Frame::KeepAlive), Ok(()));
    assert_eq!(session.receive(&message(MessageTag::Unchoke)), Ok(()));
    assert_eq!(session.receive(&Frame::KeepAlive), Ok(()));
    assert!(session.may_request());
    assert_eq!(session.state(), SessionState::Open);
}

#[test]
fn setup_goes_bitfield_interested_unchoke() {
    let mut session = Session::new([1; 20], [2; 20]);
    assert_eq!(session.setup_step(), SetupStep::Refuse);
    session.begin_handshake().unwrap();
    assert_eq!(session.setup_step(), SetupStep::Refuse);
    session.accept_handshake(&Handshake::new([1; 20], [3; 20]).to_bytes()).unwrap();
    assert_eq!(session.setup_step(), SetupStep::Receive);
    session.receive(&Frame::KeepAlive).unwrap();
    assert_eq!(session.setup_step(), SetupStep::Receive);
    session.receive(&message(MessageTag::Bitfield)).unwrap();
    assert_eq!(session.setup_step(), SetupStep::SendInterested);
    session.send(MessageTag::Interested).unwrap();
    assert_eq!(session.setup_step(), SetupStep::Receive);
    session.receive(&message(MessageTag::Have)).unwrap();
    assert_eq!(session.setup_step(), SetupStep::Receive);
    session.receive(&message(MessageTag::Unchoke)).unwrap();
    assert_eq!(session.setup_step(), SetupStep::Ready);
    session.close();
    assert_eq!(session.setup_step(), SetupStep::Refuse);
    let mut other = verified();
    other.receive(&message(MessageTag::Unchoke)).unwrap();
    assert_eq!(other.setup_step(), SetupStep::Refuse);
}
