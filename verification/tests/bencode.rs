use torrust::bencode::{BencodeCause, BencodeDict, BencodeValue};
use torrust::codec::{decode_value, encode};
use torrust::decode_bencoded_value;
use torrust::error::{ErrorKind, TorrentError};

fn text(s: &str) -> BencodeValue {
    BencodeValue::ByteString(s.as_bytes().to_vec())
}

fn cause_of(input: &[u8]) -> BencodeCause {
    match decode_bencoded_value(input) {
        Err(TorrentError::MalformedBencode(cause)) => cause,
        other => panic!("expected a malformed input, got {:?}", other),
    }
}

#[test]
fn decode_str() {
    let encoded = "4:hola";
    let decoded = decode_bencoded_value(encoded.as_bytes()).unwrap();
    assert_eq!(text("hola"), decoded.0);
}

#[test]
fn decode_number() {
    let encoded = "i52e";
    let decoded = decode_bencoded_value(encoded.as_bytes()).unwrap();
    assert_eq!(BencodeValue::Integer(52), decoded.0);
}

#[test]
fn decode_list() {
    let encoded = "li52e4:holae";
    let decoded = decode_bencoded_value(encoded.as_bytes()).unwrap();
    let expec = BencodeValue::List(vec![BencodeValue::Integer(52), text("hola")]);
    assert_eq!(expec, decoded.0);
}

#[test]
fn decode_dict() {
    let encoded = "d3:foo3:bar5:helloi52ee";
    let decoded = decode_bencoded_value(encoded.as_bytes()).unwrap();
    let mut dict = BencodeDict::new();
    dict.insert(b"foo".to_vec(), text("bar"));
    dict.insert(b"hello".to_vec(), BencodeValue::Integer(52));
    let expec = BencodeValue::Dictionary(dict);
    assert_eq!(expec, decoded.0);
}

#[test]
fn decode_examples() {
    assert_eq!(decode_bencoded_value(b"4:spam").unwrap().0, text("spam"));
    assert_eq!(decode_bencoded_value(b"i52e").unwrap().0, BencodeValue::Integer(52));
    assert_eq!(
        decode_bencoded_value(b"l4:spami52ee").unwrap().0,
        BencodeValue::List(vec![text("spam"), BencodeValue::Integer(52)])
    );
    let mut dict = BencodeDict::new();
    dict.insert(b"cow".to_vec(), text("moo"));
    dict.insert(b"spam".to_vec(), text("eggs"));
    assert_eq!(
        decode_bencoded_value(b"d3:cow3:moo4:spam4:eggse").unwrap().0,
        BencodeValue::Dictionary(dict)
    );
}

#[test]
fn decode_returns_the_remainder() {
    let (value, rest) = decode_bencoded_value(b"i1ei2e").unwrap();
    assert_eq!(value, BencodeValue::Integer(1));
    assert_eq!(rest, b"i2e");
    let (value, rest) = decode_bencoded_value(rest).unwrap();
    assert_eq!(value, BencodeValue::Integer(2));
    assert!(rest.is_empty());
    let (value, rest) = decode_bencoded_value(b"3:abcdef").unwrap();
    assert_eq!(value, text("abc"));
    assert_eq!(rest, b"def");
}

#[test]
fn decode_value_reports_the_end() {
    assert_eq!(decode_value(b"xxi52exx", 2), Ok((BencodeValue::Integer(52), 6)));
    assert_eq!(decode_value(b"le", 0), Ok((BencodeValue::List(vec![]), 2)));
    assert_eq!(decode_value(b"i1e", 3), Err(BencodeCause::EndOfInput));
}

#[test]
fn string_content_is_not_parsed() {
    assert_eq!(decode_bencoded_value(b"3:i5e").unwrap().0, text("i5e"));
    assert_eq!(
        decode_bencoded_value(&[b'2', b':', 0xff, 0x00]).unwrap().0,
        BencodeValue::ByteString(vec![0xff, 0x00])
    );
    assert_eq!(decode_bencoded_value(b"0:").unwrap().0, text(""));
}

#[test]
fn integers_in_all_spellings() {
    assert_eq!(decode_bencoded_value(b"i-42e").unwrap().0, BencodeValue::Integer(-42));
    assert_eq!(decode_bencoded_value(b"i0e").unwrap().0, BencodeValue::Integer(0));
    assert_eq!(decode_bencoded_value(b"i007e").unwrap().0, BencodeValue::Integer(7));
    assert_eq!(decode_bencoded_value(b"i+5e").unwrap().0, BencodeValue::Integer(5));
    assert_eq!(decode_bencoded_value(b"i-0e").unwrap().0, BencodeValue::Integer(0));
    assert_eq!(
        decode_bencoded_value(b"i9223372036854775807e").unwrap().0,
        BencodeValue::Integer(i64::MAX)
    );
    assert_eq!(
        decode_bencoded_value(b"i-9223372036854775808e").unwrap().0,
        BencodeValue::Integer(i64::MIN)
    );
    assert_eq!(decode_bencoded_value(b"04:spam").unwrap().0, text("spam"));
}

#[test]
fn every_cause_of_malformed_bencode() {
    assert_eq!(cause_of(b""), BencodeCause::EndOfInput);
    assert_eq!(cause_of(b"x"), BencodeCause::UnexpectedByte);
    assert_eq!(cause_of(b"e"), BencodeCause::UnexpectedByte);
    assert_eq!(cause_of(b"i52"), BencodeCause::UnterminatedInteger);
    assert_eq!(cause_of(b"i5x2e"), BencodeCause::InvalidInteger);
    assert_eq!(cause_of(b"ie"), BencodeCause::InvalidInteger);
    assert_eq!(cause_of(b"i-e"), BencodeCause::InvalidInteger);
    assert_eq!(cause_of(b"i9223372036854775808e"), BencodeCause::InvalidInteger);
    assert_eq!(cause_of(b"i-9223372036854775809e"), BencodeCause::InvalidInteger);
    assert_eq!(cause_of(b"4spam"), BencodeCause::UnterminatedString);
    assert_eq!(cause_of(b"4x:spam"), BencodeCause::InvalidLength);
    assert_eq!(cause_of(b"5:spam"), BencodeCause::StringTooLong);
    assert_eq!(cause_of(b"99999999999999999999999999:x"), BencodeCause::StringTooLong);
    assert_eq!(cause_of(b"li1e"), BencodeCause::UnterminatedList);
    assert_eq!(cause_of(b"l"), BencodeCause::UnterminatedList);
    assert_eq!(cause_of(b"d3:cow3:moo"), BencodeCause::UnterminatedDictionary);
    assert_eq!(cause_of(b"di1ei2ee"), BencodeCause::KeyNotString);
    assert_eq!(cause_of(b"d3:cowe"), BencodeCause::UnexpectedByte);
    assert_eq!(cause_of(b"d3:cow"), BencodeCause::EndOfInput);
    assert_eq!(cause_of(b"lxe"), BencodeCause::UnexpectedByte);
}

#[test]
fn malformed_bencode_has_its_kind_and_words() {
    let error = decode_bencoded_value(b"i52").unwrap_err();
    assert_eq!(error.kind(), ErrorKind::MalformedBencode);
    assert!(!error.is_recoverable());
    assert_eq!(error.message(), "malformed bencode: an integer is not terminated");
    assert_eq!(BencodeCause::KeyNotString.message(), "a dictionary key is not a byte string");
}

#[test]
fn encode_exact_bytes() {
    assert_eq!(encode(&BencodeValue::Integer(52)), b"i52e");
    assert_eq!(encode(&BencodeValue::Integer(-42)), b"i-42e");
    assert_eq!(encode(&BencodeValue::Integer(0)), b"i0e");
    assert_eq!(encode(&BencodeValue::Integer(i64::MIN)), b"i-9223372036854775808e");
    assert_eq!(encode(&BencodeValue::Integer(i64::MAX)), b"i9223372036854775807e");
    assert_eq!(encode(&text("spam")), b"4:spam");
    assert_eq!(encode(&text("")), b"0:");
    assert_eq!(encode(&text("0123456789")), b"10:0123456789");
    assert_eq!(encode(&BencodeValue::List(vec![])), b"le");
    assert_eq!(encode(&BencodeValue::Dictionary(BencodeDict::new())), b"de");
    assert_eq!(
        encode(&BencodeValue::List(vec![text("spam"), BencodeValue::Integer(52)])),
        b"l4:spami52ee"
    );
}

#[test]
fn dictionary_keys_are_written_in_ascending_order() {
    let mut backwards = BencodeDict::new();
    backwards.insert(b"spam".to_vec(), text("eggs"));
    backwards.insert(b"cow".to_vec(), text("moo"));
    backwards.insert(b"a".to_vec(), BencodeValue::Integer(1));
    backwards.insert(b"co".to_vec(), BencodeValue::Integer(2));
    let mut forwards = BencodeDict::new();
    forwards.insert(b"a".to_vec(), BencodeValue::Integer(1));
    forwards.insert(b"co".to_vec(), BencodeValue::Integer(2));
    forwards.insert(b"cow".to_vec(), text("moo"));
    forwards.insert(b"spam".to_vec(), text("eggs"));
    assert_eq!(backwards, forwards);
    let encoded = encode(&BencodeValue::Dictionary(backwards));
    assert_eq!(encoded, b"d1:ai1e2:coi2e3:cow3:moo4:spam4:eggse");
    assert_eq!(encoded, encode(&BencodeValue::Dictionary(forwards)));
}

#[test]
fn dictionary_keys_order_by_bytes_not_by_length() {
    let mut dict = BencodeDict::new();
    dict.insert(vec![0xff], BencodeValue::Integer(3));
    dict.insert(b"b".to_vec(), BencodeValue::Integer(2));
    dict.insert(b"aa".to_vec(), BencodeValue::Integer(1));
    dict.insert(vec![], BencodeValue::Integer(0));
    assert_eq!(dict.len(), 4);
    assert_eq!(dict.key_at(0), &Vec::<u8>::new());
    assert_eq!(dict.key_at(1), &b"aa".to_vec());
    assert_eq!(dict.key_at(2), &b"b".to_vec());
    assert_eq!(dict.key_at(3), &vec![0xffu8]);
    assert_eq!(dict.value_at(3), &BencodeValue::Integer(3));
}

#[test]
fn inserting_a_key_again_replaces_its_value() {
    let mut dict = BencodeDict::new();
    dict.insert(b"k".to_vec(), BencodeValue::Integer(1));
    dict.insert(b"k".to_vec(), BencodeValue::Integer(2));
    assert_eq!(dict.len(), 1);
    assert_eq!(dict.get(b"k"), Some(&BencodeValue::Integer(2)));
    assert_eq!(dict.get(b"j"), None);
}

#[test]
fn decoding_sorts_keys_and_keeps_the_later_duplicate() {
    let (value, _) = decode_bencoded_value(b"d1:bi1e1:ai2e1:bi3ee").unwrap();
    let mut dict = BencodeDict::new();
    dict.insert(b"a".to_vec(), BencodeValue::Integer(2));
    dict.insert(b"b".to_vec(), BencodeValue::Integer(3));
    assert_eq!(value, BencodeValue::Dictionary(dict));
    assert_eq!(encode(&value), b"d1:ai2e1:bi3ee");
}

#[test]
fn decoding_undoes_encoding() {
    let mut inner = BencodeDict::new();
    inner.insert(b"zeta".to_vec(), BencodeValue::List(vec![]));
    inner.insert(b"alpha".to_vec(), BencodeValue::Integer(-7));
    let mut outer = BencodeDict::new();
    outer.insert(b"list".to_vec(), BencodeValue::List(vec![
        BencodeValue::Integer(i64::MIN),
        BencodeValue::ByteString(vec![0, 255, b'e', b':']),
        BencodeValue::Dictionary(inner),
    ]));
    outer.insert(b"".to_vec(), text("empty key"));
    let value = BencodeValue::Dictionary(outer);
    let encoded = encode(&value);
    let (decoded, rest) = decode_bencoded_value(&encoded).unwrap();
    assert_eq!(decoded, value);
    assert!(rest.is_empty());
    let mut followed = encoded.clone();
    followed.extend_from_slice(b"i1e");
    let (decoded, rest) = decode_bencoded_value(&followed).unwrap();
    assert_eq!(decoded, value);
    assert_eq!(rest, b"i1e");
}
