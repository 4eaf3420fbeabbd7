use torrust::error::{ErrorKind, HandshakeCause, TorrentError, WireCause};
use torrust::peer::{
    check_reply, frame_length, read_frame, Frame, Handshake, Message, MessageTag, Piece, Request,
};

fn reply(hash: [u8; 20], peer: [u8; 20]) -> Vec<u8> {
    Handshake::new(hash, peer).to_bytes()
}

#[test]
fn handshake_has_the_fixed_fields() {
    let handshake = Handshake::new([7; 20], *b"00112233445566778899");
    assert_eq!(handshake.length, 19);
    assert_eq!(&handshake.protocol, b"BitTorrent protocol");
    assert_eq!(handshake.reserved_bytes, [0; 8]);
    assert_eq!(handshake.info_hash, [7; 20]);
    assert_eq!(&handshake.peer_id, b"00112233445566778899");
}

#[test]
fn handshake_is_68_bytes_field_by_field() {
    let bytes = Handshake::new([7; 20], *b"00112233445566778899").to_bytes();
    let mut expected = vec![19u8];
    expected.extend_from_slice(b"BitTorrent protocol");
    expected.extend_from_slice(&[0; 8]);
    expected.extend_from_slice(&[7; 20]);
    expected.extend_from_slice(b"00112233445566778899");
    assert_eq!(bytes.len(), 68);
    assert_eq!(bytes, expected);
}

#[test]
fn handshake_is_unpacked_from_its_bytes() {
    let sent = Handshake::new([9; 20], [3; 20]);
    assert_eq!(Handshake::from_bytes(&sent.to_bytes()), Ok(sent));
    let mut extended = sent.to_bytes();
    extended[25] = 0x10;
    let unpacked = Handshake::from_bytes(&extended).unwrap();
    assert_eq!(unpacked.reserved_bytes, [0, 0, 0, 0, 0, 0x10, 0, 0]);
    assert_eq!(unpacked.info_hash, [9; 20]);
    assert_eq!(unpacked.peer_id, [3; 20]);
}

#[test]
fn malformed_handshakes_are_refused() {
    let malformed = Err(TorrentError::HandshakeFailed(HandshakeCause::Malformed));
    let good = reply([9; 20], [3; 20]);
    assert_eq!(Handshake::from_bytes(&good[..67]), malformed);
    assert_eq!(Handshake::from_bytes(&[]), malformed);
    let mut longer = good.clone();
    longer.push(0);
    assert_eq!(Handshake::from_bytes(&longer), malformed);
    let mut length = good.clone();
    length[0] = 18;
    assert_eq!(Handshake::from_bytes(&length), malformed);
    let mut name = good.clone();
    name[19] = b'L';
    assert_eq!(Handshake::from_bytes(&name), malformed);
    assert_eq!(check_reply(&[9; 20], &name), Err(TorrentError::HandshakeFailed(HandshakeCause::Malformed)));
}

#[test]
fn reply_must_echo_the_identity_hash() {
    assert_eq!(check_reply(&[9; 20], &reply([9; 20], [3; 20])), Ok([3; 20]));
    let mut other = [9u8; 20];
    other[19] = 8;
    let refused = check_reply(&[9; 20], &reply(other, [3; 20]));
    assert_eq!(refused, Err(TorrentError::HandshakeFailed(HandshakeCause::HashMismatch)));
    assert_eq!(refused.unwrap_err().kind(), ErrorKind::HandshakeFailed);
}

#[test]
fn request_keeps_its_three_numbers() {
    let request = Request::new(3, 16384, 7232);
    assert_eq!(request.index(), 3);
    assert_eq!(request.begin(), 16384);
    assert_eq!(request.length(), 7232);
}

#[test]
fn request_is_twelve_bytes_big_endian() {
    assert_eq!(
        Request::new(1, 16384, 16384).to_bytes(),
        vec![0, 0, 0, 1, 0, 0, 0x40, 0, 0, 0, 0x40, 0]
    );
    assert_eq!(
        Request::new(0x01020304, 0xa0b0c0d0, u32::MAX).to_bytes(),
        vec![1, 2, 3, 4, 0xa0, 0xb0, 0xc0, 0xd0, 255, 255, 255, 255]
    );
    let request = Request::new(5, 6, 7);
    assert_eq!(Request::from_bytes(&request.to_bytes()), Ok(request));
    assert_eq!(
        Request::from_bytes(&[0; 11]),
        Err(TorrentError::ConnectionClosed(WireCause::ShortPayload))
    );
}

#[test]
fn piece_payload_is_index_offset_block() {
    let piece = Piece::from_u8(&[0, 0, 0, 2, 0, 0, 0x40, 0, 9, 8, 7]).unwrap();
    assert_eq!(piece.index(), 2);
    assert_eq!(piece.begin(), 16384);
    assert_eq!(piece.block(), &[9, 8, 7]);
    let empty = Piece::from_u8(&[0, 0, 1, 0, 0, 0, 0, 1]).unwrap();
    assert_eq!(empty.index(), 256);
    assert_eq!(empty.begin(), 1);
    assert!(empty.block().is_empty());
}

#[test]
fn piece_payload_needs_eight_bytes() {
    let short = Piece::from_u8(&[0, 0, 0, 2, 0, 0, 0x40]);
    assert_eq!(short, Err(TorrentError::ConnectionClosed(WireCause::ShortPayload)));
    assert!(Piece::from_u8(&[]).is_err());
    assert_eq!(short.unwrap_err().kind(), ErrorKind::ConnectionClosed);
}

#[test]
fn tags_are_the_bytes_zero_to_eight() {
    let tags = [
        MessageTag::Choke,
        MessageTag::Unchoke,
        MessageTag::Interested,
        MessageTag::NotInterested,
        MessageTag::Have,
        MessageTag::Bitfield,
        MessageTag::Request,
        MessageTag::Piece,
        MessageTag::Cancel,
    ];
    for (byte, tag) in tags.iter().enumerate() {
        assert_eq!(MessageTag::from_u8(byte as u8), Ok(*tag));
        assert_eq!(tag.to_u8(), byte as u8);
    }
    assert_eq!(
        MessageTag::from_u8(9),
        Err(TorrentError::ConnectionClosed(WireCause::UnknownTag(9)))
    );
    assert_eq!(
        MessageTag::from_u8(255),
        Err(TorrentError::ConnectionClosed(WireCause::UnknownTag(255)))
    );
}

#[test]
fn message_frame_is_length_tag_payload() {
    let interested = Message { tag: MessageTag::Interested, payload: Vec::new() };
    assert!(interested.can_frame());
    assert_eq!(&interested.to_bytes()[..], &[0, 0, 0, 1, 2]);
    let request = Message {
        tag: MessageTag::Request,
        payload: Request::new(0, 0, 16384).to_bytes(),
    };
    assert_eq!(
        &request.to_bytes()[..],
        &[0, 0, 0, 13, 6, 0, 0, 0, 0, 0, 0, 0, 0, 0, 0, 0x40, 0]
    );
    let long = Message { tag: MessageTag::Piece, payload: vec![0xaa; 300] };
    let frame = long.to_bytes();
    assert_eq!(frame.len(), 305);
    assert_eq!(&frame[..5], &[0, 0, 1, 45, 7]);
    assert_eq!(&frame[5..], &[0xaa; 300][..]);
}

#[test]
fn frames_are_read_back() {
    assert_eq!(frame_length(&[0, 0, 0, 13]), 13);
    assert_eq!(frame_length(&[0, 0, 0, 0]), 0);
    assert_eq!(frame_length(&[1, 0, 0, 5]), 16777221);
    assert_eq!(read_frame(&[]), Ok(Frame::KeepAlive));
    assert_eq!(
        read_frame(&[1]),
        Ok(Frame::Message(Message { tag: MessageTag::Unchoke, payload: vec![] }))
    );
    assert_eq!(
        read_frame(&[5, 0xff, 0x80]),
        Ok(Frame::Message(Message { tag: MessageTag::Bitfield, payload: vec![0xff, 0x80] }))
    );
    assert_eq!(
        read_frame(&[20, 1, 2]),
        Err(TorrentError::ConnectionClosed(WireCause::UnknownTag(20)))
    );
    let message = Message { tag: MessageTag::Have, payload: vec![0, 0, 0, 9] };
    let frame = message.to_bytes();
    let prefix = [frame[0], frame[1], frame[2], frame[3]];
    assert_eq!(frame_length(&prefix) as usize, frame.len() - 4);
    assert_eq!(read_frame(&frame[4..]), Ok(Frame::Message(message)));
}
