//! The tracker contract: the parameters of an announce request and the peer
//! list of the response.

use crate::bencode::{dict_get, BencodeValue, BencodeView, DictView};
use crate::codec::{decode_bencoded_value, spec_decode};
use crate::decimal::{dec_text, decimal_text};
use crate::error::{Field, TorrentError, TrackerCause};
use crate::packing::{be_u16, u16_from_be};
use crate::torrent::{key, total_length, Info};
use vstd::prelude::*;

verus! {

/// The parameters of an announce request, but for the identity hash.
#[derive(Debug, Clone, PartialEq, Eq)]
pub struct TrackerRequest {
    /// The identifier of this client.
    pub peer_id: String,
    /// The port this client listens on.
    pub port: u16,
    /// The number of bytes uploaded so far.
    pub uploaded: usize,
    /// The number of bytes downloaded so far.
    pub downloaded: usize,
    /// The number of bytes still to download.
    pub left: usize,
    /// 1 to ask for the compact peer list.
    pub compact: u8,
}

/// The address of a peer: an IPv4 address and a port.
#[derive(Debug, Clone, Copy, PartialEq, Eq)]
pub struct PeerAddress {
    pub ip: [u8; 4],
    pub port: u16,
}

/// The peers of a tracker response, in the order of the response.
#[derive(Debug, Clone, PartialEq, Eq)]
pub struct Peers(pub Vec<PeerAddress>);

/// A tracker response.
#[derive(Debug, Clone, PartialEq, Eq)]
pub struct TrackerResponse {
    /// The number of seconds to wait before the next announce.
    pub interval: usize,
    /// The peers that hold the content.
    pub peers: Peers,
}

/// The mathematical value of a `PeerAddress`.
pub struct PeerView {
    pub ip: Seq<u8>,
    pub port: u16,
}

/// The mathematical value of a `TrackerResponse`.
pub struct ResponseView {
    pub interval: nat,
    pub peers: Seq<PeerView>,
}

impl View for PeerAddress {
    type V = PeerView;

    open spec fn view(&self) -> PeerView {
        PeerView { ip: self.ip@, port: self.port }
    }
}

impl View for Peers {
    type V = Seq<PeerView>;

    open spec fn view(&self) -> Seq<PeerView> {
        Seq::new(self.0.len() as nat, |i: int| self.0[i]@)
    }
}

impl View for TrackerResponse {
    type V = ResponseView;

    open spec fn view(&self) -> ResponseView {
        ResponseView { interval: self.interval as nat, peers: self.peers@ }
    }
}

// ---------------------------------------------------------------------------
// The identity hash in a URL
// ---------------------------------------------------------------------------

/// The lower-case hexadecimal digit of a number below 16.
pub open spec fn hex_digit(n: u8) -> char {
    if n < 10 {
        (48 + n) as u8 as char
    } else {
        (87 + n) as u8 as char
    }
}

/// The two lower-case hexadecimal digits of a byte, high digit first.
pub open spec fn hex_of_byte(byte: u8) -> Seq<char> {
    seq![hex_digit(byte / 16), hex_digit(byte % 16)]
}

/// Every byte from index `i` on as `%` and its two hexadecimal digits.
pub open spec fn percent_encoded_from(bytes: Seq<u8>, i: int) -> Seq<char>
    decreases bytes.len() - i,
{
    if i < 0 || i >= bytes.len() {
        Seq::empty()
    } else {
        seq!['%'] + hex_of_byte(bytes[i]) + percent_encoded_from(bytes, i + 1)
    }
}

/// Calls `hex::encode` on one byte. Trusted: it returns the byte's two
/// hexadecimal digits in lower case, the high digit first.
#[verifier::external_body]
fn hex_encode_byte(byte: u8) -> (text: String)
    ensures
        text@ == hex_of_byte(byte),
{
    hex::encode([byte])
}

/// The identity hash as it stands in the announce URL: each of its 20 bytes
/// as `%` and two hexadecimal digits, raw bytes and not text.
pub fn hash_encoder(t: &[u8; 20]) -> (encoded: String)
    ensures
        encoded@ == percent_encoded_from(t@, 0),
        encoded@.len() == 60,
{
    let mut encoded = String::new();
    let mut i: usize = 0;
    proof {
        reveal_strlit("%");
    }
    while i < 20
        invariant
            i <= 20,
            "%"@ == seq!['%'],
            encoded@ + percent_encoded_from(t@, i as int) == percent_encoded_from(t@, 0),
            encoded@.len() == 3 * i,
        decreases 20 - i,
    {
        let ghost before = encoded@;
        let digits = hex_encode_byte(t[i]);
        encoded.append("%");
        encoded.append(digits.as_str());
        assert(encoded@ + percent_encoded_from(t@, i + 1) =~= before + percent_encoded_from(
            t@,
            i as int,
        ));
        i += 1;
    }
    assert(encoded@ + Seq::<char>::empty() =~= encoded@);
    encoded
}

// ---------------------------------------------------------------------------
// The announce parameters
// ---------------------------------------------------------------------------

/// What `serde_urlencoded::to_string` makes of a sequence of pairs of texts:
/// the `application/x-www-form-urlencoded` query string, or nothing where it
/// refuses them.
pub uninterp spec fn form_urlencoded(pairs: Seq<(Seq<char>, Seq<char>)>) -> Option<Seq<char>>;

/// The error of `serde_urlencoded`'s serializer.
#[verifier::external_type_specification]
#[verifier::external_body]
pub struct ExUrlencodedError(serde_urlencoded::ser::Error);

/// The pairs of a vector, as texts.
pub open spec fn pairs_view(pairs: &Vec<(String, String)>) -> Seq<(Seq<char>, Seq<char>)> {
    Seq::new(pairs.len() as nat, |i: int| (pairs[i].0@, pairs[i].1@))
}

/// Calls `serde_urlencoded::to_string` on a sequence of pairs. Trusted: what
/// it returns depends on the pairs alone.
#[verifier::external_body]
fn urlencode_pairs(pairs: &Vec<(String, String)>) -> (res: Result<
    String,
    serde_urlencoded::ser::Error,
>)
    ensures
        match res {
            Ok(query) => form_urlencoded(pairs_view(pairs)) == Some(query@),
            Err(_) => form_urlencoded(pairs_view(pairs)).is_none(),
        },
{
    serde_urlencoded::to_string(pairs)
}

/// The mathematical value of a `TrackerRequest`.
pub struct RequestView {
    pub peer_id: Seq<char>,
    pub port: nat,
    pub uploaded: nat,
    pub downloaded: nat,
    pub left: nat,
    pub compact: nat,
}

impl View for TrackerRequest {
    type V = RequestView;

    open spec fn view(&self) -> RequestView {
        RequestView {
            peer_id: self.peer_id@,
            port: self.port as nat,
            uploaded: self.uploaded as nat,
            downloaded: self.downloaded as nat,
            left: self.left as nat,
            compact: self.compact as nat,
        }
    }
}

impl TrackerRequest {
    /// The first request of a client that has nothing of the content yet:
    /// nothing uploaded, nothing downloaded, the whole content left, and the
    /// compact peer list asked for. `None` when the length of the content
    /// does not fit a `usize`.
    pub fn initial(info: &Info, peer_id: String, port: u16) -> (res: Option<TrackerRequest>)
        ensures
            match res {
                Some(request) => request@ == (RequestView {
                    peer_id: peer_id@,
                    port: port as nat,
                    uploaded: 0,
                    downloaded: 0,
                    left: total_length(info@.layout),
                    compact: 1,
                }),
                None => total_length(info@.layout) > usize::MAX,
            },
    {
        match info.total_length() {
            Some(left) => Some(
                TrackerRequest { peer_id, port, uploaded: 0, downloaded: 0, left, compact: 1 },
            ),
            None => None,
        }
    }
}

/// The parameters of a request as pairs of name and value, in the order
/// they are written in.
pub open spec fn announce_pairs(request: RequestView) -> Seq<(Seq<char>, Seq<char>)> {
    seq![
        ("peer_id"@, request.peer_id),
        ("port"@, dec_text(request.port)),
        ("uploaded"@, dec_text(request.uploaded)),
        ("downloaded"@, dec_text(request.downloaded)),
        ("left"@, dec_text(request.left)),
        ("compact"@, dec_text(request.compact)),
    ]
}

/// The parameters of a request as pairs of name and value: the texts that
/// are handed to the form encoder.
pub fn request_pairs(request: &TrackerRequest) -> (pairs: Vec<(String, String)>)
    ensures
        pairs_view(&pairs) == announce_pairs(request@),
{
    let mut pairs: Vec<(String, String)> = Vec::new();
    pairs.push((String::from_str("peer_id"), request.peer_id.clone()));
    pairs.push((String::from_str("port"), decimal_text(request.port as u64)));
    pairs.push((String::from_str("uploaded"), decimal_text(request.uploaded as u64)));
    pairs.push((String::from_str("downloaded"), decimal_text(request.downloaded as u64)));
    pairs.push((String::from_str("left"), decimal_text(request.left as u64)));
    pairs.push((String::from_str("compact"), decimal_text(request.compact as u64)));
    assert(pairs_view(&pairs) =~= announce_pairs(request@));
    pairs
}

/// The query string of an announce request: `peer_id`, `port`, `uploaded`,
/// `downloaded`, `left` and `compact`, form-encoded. The identity hash is
/// not part of it: it is raw bytes, which `hash_encoder` writes. `None` when
/// the encoder refuses the parameters.
pub fn build_announce_params(request: &TrackerRequest) -> (query: Option<String>)
    ensures
        match query {
            Some(q) => form_urlencoded(announce_pairs(request@)) == Some(q@),
            None => form_urlencoded(announce_pairs(request@)).is_none(),
        },
{
    let pairs = request_pairs(request);
    match urlencode_pairs(&pairs) {
        Ok(query) => Some(query),
        Err(_) => None,
    }
}

/// The URL of an announce request: the tracker's URL, `?`, the query string,
/// and the identity hash as `info_hash`.
pub open spec fn spec_announce_url(announce: Seq<char>, query: Seq<char>, hash: Seq<u8>) -> Seq<
    char,
> {
    announce + "?"@ + query + "&info_hash="@ + percent_encoded_from(hash, 0)
}

/// The URL of an announce request.
pub fn announce_url(announce: &str, query: &str, info_hash: &[u8; 20]) -> (url: String)
    ensures
        url@ == spec_announce_url(announce@, query@, info_hash@),
{
    let mut url = String::from_str(announce);
    url.append("?");
    url.append(query);
    url.append("&info_hash=");
    let hash = hash_encoder(info_hash);
    url.append(hash.as_str());
    url
}

// ---------------------------------------------------------------------------
// The response
// ---------------------------------------------------------------------------

/// The peer that the six bytes of `b` from `6 * i` on describe: four bytes
/// of address, two bytes of port with the high byte first.
pub open spec fn peer_at(b: Seq<u8>, i: int) -> PeerView {
    PeerView { ip: b.subrange(6 * i, 6 * i + 4), port: be_u16(b.subrange(6 * i + 4, 6 * i + 6)) }
}

/// The peers of a compact peer list: one for every six bytes.
pub open spec fn peers_of(b: Seq<u8>) -> Seq<PeerView> {
    Seq::new((b.len() / 6) as nat, |i: int| peer_at(b, i))
}

/// A compact peer list of six bytes holds exactly one peer.
pub proof fn lemma_one_peer(b: Seq<u8>)
    requires
        b.len() == 6,
    ensures
        peers_of(b).len() == 1,
        peers_of(b)[0] == (PeerView { ip: b.subrange(0, 4), port: be_u16(b.subrange(4, 6)) }),
{
}

/// The interval of a response: an integer that is not negative and fits a
/// `usize`.
pub open spec fn interval_of(d: DictView) -> Result<nat, TrackerCause> {
    match dict_get(d, key("interval")) {
        None => Err(TrackerCause::Missing(Field::Interval)),
        Some(BencodeView::Integer(n)) => if 0 <= n <= usize::MAX {
            Ok(n as nat)
        } else {
            Err(TrackerCause::WrongKind(Field::Interval))
        },
        Some(_) => Err(TrackerCause::WrongKind(Field::Interval)),
    }
}

/// The peer list of a response: a byte string whose length is a multiple of 6.
pub open spec fn peers_field(d: DictView) -> Result<Seq<PeerView>, TrackerCause> {
    match dict_get(d, key("peers")) {
        None => Err(TrackerCause::Missing(Field::Peers)),
        Some(BencodeView::ByteString(b)) => if b.len() % 6 == 0 {
            Ok(peers_of(b))
        } else {
            Err(TrackerCause::PeersLength)
        },
        Some(_) => Err(TrackerCause::WrongKind(Field::Peers)),
    }
}

/// The response that a bencoded value holds. The interval is read first.
pub open spec fn response_of(root: BencodeView) -> Result<ResponseView, TrackerCause> {
    match root {
        BencodeView::Dictionary(d) => match interval_of(d) {
            Err(cause) => Err(cause),
            Ok(interval) => match peers_field(d) {
                Err(cause) => Err(cause),
                Ok(peers) => Ok(ResponseView { interval, peers }),
            },
        },
        _ => Err(TrackerCause::NotADictionary),
    }
}

/// What the bytes of a tracker response hold.
pub open spec fn spec_parse_response(bytes: Seq<u8>) -> Result<ResponseView, TorrentError> {
    match spec_decode(bytes) {
        Err(cause) => Err(TorrentError::MalformedBencode(cause)),
        Ok((root, _)) => match response_of(root) {
            Ok(response) => Ok(response),
            Err(cause) => Err(TorrentError::InvalidTrackerResponse(cause)),
        },
    }
}

fn ip_at(bytes: &[u8], at: usize) -> (ip: [u8; 4])
    requires
        at + 4 <= bytes@.len(),
    ensures
        ip@ == bytes@.subrange(at as int, at + 4),
{
    let ip: [u8; 4] = [bytes[at], bytes[at + 1], bytes[at + 2], bytes[at + 3]];
    assert(ip@ =~= bytes@.subrange(at as int, at + 4));
    ip
}

impl Peers {
    /// Reads a compact peer list: six bytes for each peer. `None` when the
    /// length is not a multiple of 6.
    pub fn from_bytes(bytes: &[u8]) -> (res: Option<Peers>)
        ensures
            match res {
                Some(peers) => bytes@.len() % 6 == 0 && peers@ == peers_of(bytes@),
                None => bytes@.len() % 6 != 0,
            },
    {
        let len = bytes.len();
        if len % 6 != 0 {
            return None;
        }
        let count = len / 6;
        let mut peers: Vec<PeerAddress> = Vec::new();
        let mut i: usize = 0;
        while i < count
            invariant
                i <= count,
                len == bytes@.len(),
                6 * count == len,
                peers@.len() == i,
                forall|k: int| 0 <= k < i ==> (#[trigger] peers@[k])@ == peer_at(bytes@, k),
            decreases count - i,
        {
            let at: usize = 6 * i;
            let ip = ip_at(bytes, at);
            let port = u16_from_be(bytes, at + 4);
            peers.push(PeerAddress { ip, port });
            i += 1;
        }
        let peers = Peers(peers);
        assert(peers@ =~= peers_of(bytes@));
        Some(peers)
    }
}

impl TrackerResponse {
    /// Reads the response that a bencoded value holds.
    pub fn from_bencode(root: &BencodeValue) -> (res: Result<TrackerResponse, TrackerCause>)
        ensures
            match res {
                Ok(response) => response_of(root@) == Ok::<ResponseView, TrackerCause>(response@),
                Err(cause) => response_of(root@) == Err::<ResponseView, TrackerCause>(cause),
            },
    {
        match root {
            BencodeValue::Dictionary(d) => {
                let interval = match d.get("interval".as_bytes()) {
                    None => {
                        return Err(TrackerCause::Missing(Field::Interval));
                    },
                    Some(BencodeValue::Integer(n)) => {
                        if *n >= 0 && (*n as u64) <= usize::MAX as u64 {
                            *n as usize
                        } else {
                            return Err(TrackerCause::WrongKind(Field::Interval));
                        }
                    },
                    Some(_) => {
                        return Err(TrackerCause::WrongKind(Field::Interval));
                    },
                };
                match d.get("peers".as_bytes()) {
                    None => Err(TrackerCause::Missing(Field::Peers)),
                    Some(BencodeValue::ByteString(b)) => match Peers::from_bytes(b.as_slice()) {
                        Some(peers) => Ok(TrackerResponse { interval, peers }),
                        None => Err(TrackerCause::PeersLength),
                    },
                    Some(_) => Err(TrackerCause::WrongKind(Field::Peers)),
                }
            },
            _ => Err(TrackerCause::NotADictionary),
        }
    }
}

/// Reads a tracker response: a bencoded dictionary with an `interval` in
/// seconds and the compact list `peers`. Bytes that are not bencode give
/// `MalformedBencode`; a peer list whose length is not a multiple of 6, or a
/// field that is absent or of the wrong kind, gives `InvalidTrackerResponse`.
pub fn parse_response(bytes: &[u8]) -> (res: Result<TrackerResponse, TorrentError>)
    ensures
        match res {
            Ok(response) => spec_parse_response(bytes@) == Ok::<ResponseView, TorrentError>(
                response@,
            ),
            Err(error) => spec_parse_response(bytes@) == Err::<ResponseView, TorrentError>(error),
        },
{
    match decode_bencoded_value(bytes) {
        Err(error) => Err(error),
        Ok((root, _)) => match TrackerResponse::from_bencode(&root) {
            Ok(response) => Ok(response),
            Err(cause) => Err(TorrentError::InvalidTrackerResponse(cause)),
        },
    }
}

} // verus!
