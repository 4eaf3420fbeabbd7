//! The bencode codec: what a value encodes to, what a byte string decodes
//! to, and the functions that compute both.

use crate::bencode::{dict_insert, list_view, sorted_keys};
use crate::bencode::{BencodeCause, BencodeDict, BencodeValue, BencodeView, DictView};
use crate::decimal::{all_digits, digits_value, int_to_dec, is_digit, nat_to_dec, parse_i64_spec};
use crate::decimal::{is_all_digits, parse_digits, parse_i64, push_decimal, push_signed_decimal};
use crate::error::TorrentError;
use crate::laws::lemma_decode_wf;
use vstd::prelude::*;
use vstd::slice::slice_subrange;
use vstd::slice::slice_to_vec;

verus! {

// ---------------------------------------------------------------------------
// Well-formed values
// ---------------------------------------------------------------------------

impl BencodeView {
    /// Every dictionary in the value has strictly ascending keys.
    pub open spec fn wf(self) -> bool
        decreases self,
    {
        match self {
            BencodeView::Integer(_) => true,
            BencodeView::ByteString(_) => true,
            BencodeView::List(l) => forall|i: int| 0 <= i < l.len() ==> (#[trigger] l[i]).wf(),
            BencodeView::Dictionary(d) => sorted_keys(d) && forall|i: int|
                0 <= i < d.len() ==> (#[trigger] d[i]).1.wf(),
        }
    }
}

// ---------------------------------------------------------------------------
// Encoding
// ---------------------------------------------------------------------------

/// The encoding of a byte string: its length in decimal, `:`, its bytes.
pub open spec fn encode_string(b: Seq<u8>) -> Seq<u8> {
    nat_to_dec(b.len()) + seq![58u8] + b
}

/// The encoding of an integer: `i`, its decimal numeral, `e`.
pub open spec fn encode_integer(i: i64) -> Seq<u8> {
    seq![105u8] + int_to_dec(i as int) + seq![101u8]
}

/// The canonical encoding of a value. A dictionary's entries are written in
/// the order of the sequence, which for a well-formed value is ascending key
/// order.
pub open spec fn spec_encode(v: BencodeView) -> Seq<u8>
    decreases v, 0int,
{
    match v {
        BencodeView::Integer(i) => encode_integer(i),
        BencodeView::ByteString(b) => encode_string(b),
        BencodeView::List(l) => seq![108u8] + encode_list_from(l, 0) + seq![101u8],
        BencodeView::Dictionary(d) => seq![100u8] + encode_entries_from(d, 0) + seq![101u8],
    }
}

/// The encodings of the elements of `l` from index `i` on, one after another.
pub open spec fn encode_list_from(l: Seq<BencodeView>, i: int) -> Seq<u8>
    decreases l, l.len() - i,
{
    if i < 0 || i >= l.len() {
        Seq::empty()
    } else {
        spec_encode(l[i]) + encode_list_from(l, i + 1)
    }
}

/// The encodings of the entries of `d` from index `i` on: each key as a byte
/// string, then its value.
pub open spec fn encode_entries_from(d: DictView, i: int) -> Seq<u8>
    decreases d, d.len() - i,
{
    if i < 0 || i >= d.len() {
        Seq::empty()
    } else {
        encode_string(d[i].0) + spec_encode(d[i].1) + encode_entries_from(d, i + 1)
    }
}

// ---------------------------------------------------------------------------
// Decoding
// ---------------------------------------------------------------------------

/// The first index at or after `from` where `s` holds `b` (the length of `s`
/// if there is none).
pub open spec fn find_byte(s: Seq<u8>, from: int, b: u8) -> int
    decreases s.len() - from,
{
    if from < 0 || from >= s.len() {
        s.len() as int
    } else if s[from] == b {
        from
    } else {
        find_byte(s, from + 1, b)
    }
}

/// What the integer that starts at `pos` (where `s` holds `i`) decodes to,
/// and where it ends.
pub open spec fn decode_integer_at(s: Seq<u8>, pos: int) -> Result<(i64, int), BencodeCause> {
    let end = find_byte(s, pos + 1, 101);
    if end >= s.len() {
        Err(BencodeCause::UnterminatedInteger)
    } else {
        match parse_i64_spec(s.subrange(pos + 1, end)) {
            Some(v) => Ok((v, end + 1)),
            None => Err(BencodeCause::InvalidInteger),
        }
    }
}

/// What the byte string that starts at `pos` (where `s` holds a digit)
/// decodes to, and where it ends.
pub open spec fn decode_string_at(s: Seq<u8>, pos: int) -> Result<(Seq<u8>, int), BencodeCause> {
    let colon = find_byte(s, pos, 58);
    if colon >= s.len() {
        Err(BencodeCause::UnterminatedString)
    } else if !all_digits(s.subrange(pos, colon)) {
        Err(BencodeCause::InvalidLength)
    } else {
        let n = digits_value(s.subrange(pos, colon));
        if colon + 1 + n > s.len() {
            Err(BencodeCause::StringTooLong)
        } else {
            Ok((s.subrange(colon + 1, colon + 1 + n), colon + 1 + n))
        }
    }
}

/// What the bytes of `s` from `pos` on decode to: the value that starts
/// there and the index just behind it, or the cause for which they are not
/// bencode.
pub open spec fn decode_at(s: Seq<u8>, pos: int) -> Result<(BencodeView, int), BencodeCause>
    decreases s.len() - pos, 0int,
{
    if pos < 0 || pos >= s.len() {
        Err(BencodeCause::EndOfInput)
    } else if s[pos] == 105 {
        match decode_integer_at(s, pos) {
            Ok((v, end)) => Ok((BencodeView::Integer(v), end)),
            Err(cause) => Err(cause),
        }
    } else if is_digit(s[pos]) {
        match decode_string_at(s, pos) {
            Ok((b, end)) => Ok((BencodeView::ByteString(b), end)),
            Err(cause) => Err(cause),
        }
    } else if s[pos] == 108 {
        match decode_list_at(s, pos + 1) {
            Ok((l, end)) => Ok((BencodeView::List(l), end)),
            Err(cause) => Err(cause),
        }
    } else if s[pos] == 100 {
        match decode_dict_at(s, pos + 1, Seq::empty()) {
            Ok((d, end)) => Ok((BencodeView::Dictionary(d), end)),
            Err(cause) => Err(cause),
        }
    } else {
        Err(BencodeCause::UnexpectedByte)
    }
}

/// What the list elements from `pos` on decode to, up to and including the
/// closing `e`.
pub open spec fn decode_list_at(s: Seq<u8>, pos: int) -> Result<(Seq<BencodeView>, int), BencodeCause>
    decreases s.len() - pos, 1int,
{
    if pos < 0 || pos >= s.len() {
        Err(BencodeCause::UnterminatedList)
    } else if s[pos] == 101 {
        Ok((Seq::empty(), pos + 1))
    } else {
        match decode_at(s, pos) {
            Err(cause) => Err(cause),
            Ok((v, next)) => if pos < next <= s.len() {
                match decode_list_at(s, next) {
                    Err(cause) => Err(cause),
                    Ok((rest, end)) => Ok((seq![v] + rest, end)),
                }
            } else {
                Err(BencodeCause::EndOfInput)
            },
        }
    }
}

/// What the dictionary entries from `pos` on decode to, up to and including
/// the closing `e`, when they are inserted one by one into `acc`: of two
/// entries with one key the later one stays.
pub open spec fn decode_dict_at(s: Seq<u8>, pos: int, acc: DictView) -> Result<
    (DictView, int),
    BencodeCause,
>
    decreases s.len() - pos, 1int,
{
    if pos < 0 || pos >= s.len() {
        Err(BencodeCause::UnterminatedDictionary)
    } else if s[pos] == 101 {
        Ok((acc, pos + 1))
    } else {
        match decode_at(s, pos) {
            Err(cause) => Err(cause),
            Ok((BencodeView::ByteString(key), mid)) => if pos < mid <= s.len() {
                match decode_at(s, mid) {
                    Err(cause) => Err(cause),
                    Ok((value, next)) => if mid < next <= s.len() {
                        decode_dict_at(s, next, dict_insert(acc, key, value))
                    } else {
                        Err(BencodeCause::EndOfInput)
                    },
                }
            } else {
                Err(BencodeCause::EndOfInput)
            },
            Ok(_) => Err(BencodeCause::KeyNotString),
        }
    }
}

/// What a byte string decodes to: its first value and the bytes left over.
pub open spec fn spec_decode(s: Seq<u8>) -> Result<(BencodeView, Seq<u8>), BencodeCause> {
    match decode_at(s, 0) {
        Ok((v, end)) => Ok((v, s.subrange(end, s.len() as int))),
        Err(cause) => Err(cause),
    }
}

/// Where `find_byte` stops: no byte before it is `b`, and the byte at it is.
pub proof fn lemma_find_byte(s: Seq<u8>, from: int, b: u8)
    requires
        0 <= from <= s.len(),
    ensures
        from <= find_byte(s, from, b) <= s.len(),
        forall|k: int| from <= k < find_byte(s, from, b) ==> s[k] != b,
        find_byte(s, from, b) < s.len() ==> s[find_byte(s, from, b)] == b,
    decreases s.len() - from,
{
    if from < s.len() && s[from] != b {
        lemma_find_byte(s, from + 1, b);
    }
}

/// `find_byte` returns the first occurrence.
pub proof fn lemma_find_byte_is(s: Seq<u8>, from: int, b: u8, at: int)
    requires
        0 <= from <= at < s.len(),
        forall|k: int| from <= k < at ==> s[k] != b,
        s[at] == b,
    ensures
        find_byte(s, from, b) == at,
    decreases at - from,
{
    if from < at {
        lemma_find_byte_is(s, from + 1, b, at);
    }
}

/// A value that decodes takes up at least one byte and ends within the input.
pub proof fn lemma_decode_bounds(s: Seq<u8>, pos: int)
    ensures
        decode_at(s, pos) matches Ok((_, end)) ==> 0 <= pos < end <= s.len(),
{
    if 0 <= pos < s.len() {
        lemma_find_byte(s, pos + 1, 101);
        lemma_find_byte(s, pos, 58);
        lemma_list_bounds(s, pos + 1);
        lemma_dict_bounds(s, pos + 1, Seq::empty());
    }
}

/// A list that decodes ends within the input, behind its closing `e`.
pub proof fn lemma_list_bounds(s: Seq<u8>, pos: int)
    ensures
        decode_list_at(s, pos) matches Ok((_, end)) ==> 0 <= pos < end <= s.len(),
    decreases s.len() - pos,
{
    if 0 <= pos < s.len() && s[pos] != 101 {
        match decode_at(s, pos) {
            Ok((v, next)) => {
                if pos < next <= s.len() {
                    lemma_list_bounds(s, next);
                }
            },
            Err(_) => {},
        }
    }
}

/// A dictionary that decodes ends within the input, behind its closing `e`.
pub proof fn lemma_dict_bounds(s: Seq<u8>, pos: int, acc: DictView)
    ensures
        decode_dict_at(s, pos, acc) matches Ok((_, end)) ==> 0 <= pos < end <= s.len(),
    decreases s.len() - pos,
{
    if 0 <= pos < s.len() && s[pos] != 101 {
        match decode_at(s, pos) {
            Ok((BencodeView::ByteString(key), mid)) => {
                if pos < mid <= s.len() {
                    match decode_at(s, mid) {
                        Ok((value, next)) => {
                            if mid < next <= s.len() {
                                lemma_dict_bounds(s, next, dict_insert(acc, key, value));
                            }
                        },
                        Err(_) => {},
                    }
                }
            },
            _ => {},
        }
    }
}

// ---------------------------------------------------------------------------
// The encoder
// ---------------------------------------------------------------------------

/// Appends the encoding of the byte string `b` to `out`.
pub fn encode_string_into(b: &[u8], out: &mut Vec<u8>)
    ensures
        final(out)@ == old(out)@ + encode_string(b@),
{
    push_decimal(out, b.len() as u64);
    out.push(58);
    out.extend_from_slice(b);
    assert(out@ =~= old(out)@ + encode_string(b@));
}

/// Appends the canonical encoding of `value` to `out`.
pub fn encode_into(value: &BencodeValue, out: &mut Vec<u8>)
    ensures
        final(out)@ == old(out)@ + spec_encode(value@),
    decreases value@, 0int,
{
    match value {
        BencodeValue::Integer(i) => {
            out.push(105);
            push_signed_decimal(out, *i);
            out.push(101);
            assert(out@ =~= old(out)@ + spec_encode(value@));
        },
        BencodeValue::ByteString(b) => {
            encode_string_into(b.as_slice(), out);
        },
        BencodeValue::List(l) => {
            out.push(108);
            // The list is a part of the value, so the recursion goes down.
            assert(value@->List_0 == list_view(l));
            encode_list_into(l, out);
            out.push(101);
            assert(out@ =~= old(out)@ + spec_encode(value@));
        },
        BencodeValue::Dictionary(d) => {
            out.push(100);
            // The dictionary is a part of the value, so the recursion goes down.
            assert(value@->Dictionary_0 == d@);
            encode_dict_into(d, out);
            out.push(101);
            assert(out@ =~= old(out)@ + spec_encode(value@));
        },
    }
}

fn encode_list_into(l: &Vec<BencodeValue>, out: &mut Vec<u8>)
    ensures
        final(out)@ == old(out)@ + encode_list_from(list_view(l), 0),
    decreases list_view(l), 1int,
{
    let ghost lv = list_view(l);
    let mut i: usize = 0;
    while i < l.len()
        invariant
            i <= l.len(),
            lv == list_view(l),
            out@ + encode_list_from(lv, i as int) == old(out)@ + encode_list_from(lv, 0),
        decreases l.len() - i,
    {
        let ghost before = out@;
        assert(lv[i as int] == l[i as int]@);
        encode_into(&l[i], out);
        assert(out@ + encode_list_from(lv, i + 1) =~= before + encode_list_from(lv, i as int));
        i += 1;
    }
    assert(encode_list_from(lv, i as int) =~= Seq::<u8>::empty());
    assert(out@ =~= out@ + Seq::<u8>::empty());
}

fn encode_dict_into(d: &BencodeDict, out: &mut Vec<u8>)
    ensures
        final(out)@ == old(out)@ + encode_entries_from(d@, 0),
    decreases d@, 1int,
{
    let ghost dv = d@;
    let n = d.len();
    let mut i: usize = 0;
    while i < n
        invariant
            i <= n,
            n == dv.len(),
            dv == d@,
            out@ + encode_entries_from(dv, i as int) == old(out)@ + encode_entries_from(dv, 0),
        decreases n - i,
    {
        let ghost before = out@;
        encode_string_into(d.key_at(i).as_slice(), out);
        encode_into(d.value_at(i), out);
        assert(out@ + encode_entries_from(dv, i + 1) =~= before + encode_entries_from(dv, i as int));
        i += 1;
    }
    assert(encode_entries_from(dv, i as int) =~= Seq::<u8>::empty());
    assert(out@ =~= out@ + Seq::<u8>::empty());
}

/// The canonical encoding of `value`: dictionaries are written with their
/// keys in ascending byte order.
pub fn encode(value: &BencodeValue) -> (bytes: Vec<u8>)
    ensures
        bytes@ == spec_encode(value@),
{
    let mut out: Vec<u8> = Vec::new();
    encode_into(value, &mut out);
    assert(out@ =~= spec_encode(value@));
    out
}

// ---------------------------------------------------------------------------
// The decoder
// ---------------------------------------------------------------------------

/// `front` put before the list that `rest` decoded to.
pub open spec fn prepend_list(
    front: Seq<BencodeView>,
    rest: Result<(Seq<BencodeView>, int), BencodeCause>,
) -> Result<(Seq<BencodeView>, int), BencodeCause> {
    match rest {
        Ok((l, end)) => Ok((front + l, end)),
        Err(cause) => Err(cause),
    }
}

/// The first index at or after `from` where `input` holds `b`.
pub fn find(input: &[u8], from: usize, b: u8) -> (at: usize)
    requires
        from <= input@.len(),
    ensures
        at == find_byte(input@, from as int, b),
        from <= at <= input@.len(),
{
    let mut i: usize = from;
    while i < input.len() && input[i] != b
        invariant
            from <= i <= input@.len(),
            find_byte(input@, i as int, b) == find_byte(input@, from as int, b),
        decreases input@.len() - i,
    {
        i += 1;
    }
    i
}

fn decode_integer(input: &[u8], pos: usize) -> (res: Result<(i64, usize), BencodeCause>)
    requires
        pos < input@.len(),
    ensures
        match res {
            Ok((v, end)) => decode_integer_at(input@, pos as int) == Ok::<(i64, int), BencodeCause>(
                (v, end as int),
            ) && pos < end <= input@.len(),
            Err(cause) => decode_integer_at(input@, pos as int) == Err::<(i64, int), BencodeCause>(
                cause,
            ),
        },
{
    let len = input.len();
    let end = find(input, pos + 1, 101);
    if end >= len {
        return Err(BencodeCause::UnterminatedInteger);
    }
    match parse_i64(input, pos + 1, end) {
        Some(v) => Ok((v, end + 1)),
        None => Err(BencodeCause::InvalidInteger),
    }
}

fn decode_string(input: &[u8], pos: usize) -> (res: Result<(Vec<u8>, usize), BencodeCause>)
    requires
        pos < input@.len(),
    ensures
        match res {
            Ok((b, end)) => decode_string_at(input@, pos as int) == Ok::<
                (Seq<u8>, int),
                BencodeCause,
            >((b@, end as int)) && pos < end <= input@.len(),
            Err(cause) => decode_string_at(input@, pos as int) == Err::<
                (Seq<u8>, int),
                BencodeCause,
            >(cause),
        },
{
    let colon = find(input, pos, 58);
    if colon >= input.len() {
        return Err(BencodeCause::UnterminatedString);
    }
    if !is_all_digits(input, pos, colon) {
        return Err(BencodeCause::InvalidLength);
    }
    let left: usize = input.len() - colon - 1;
    match parse_digits(input, pos, colon, left as u64) {
        None => Err(BencodeCause::StringTooLong),
        Some(n) => {
            let start: usize = colon + 1;
            let end: usize = start + n as usize;
            let bytes = slice_to_vec(slice_subrange(input, start, end));
            Ok((bytes, end))
        },
    }
}

/// Decodes the value that starts at `pos`, and says where it ends.
pub fn decode_value(input: &[u8], pos: usize) -> (res: Result<(BencodeValue, usize), BencodeCause>)
    ensures
        match res {
            Ok((v, end)) => decode_at(input@, pos as int) == Ok::<(BencodeView, int), BencodeCause>(
                (v@, end as int),
            ) && pos < end <= input@.len(),
            Err(cause) => decode_at(input@, pos as int) == Err::<(BencodeView, int), BencodeCause>(
                cause,
            ),
        },
    decreases input@.len() - pos, 0int,
{
    if pos >= input.len() {
        return Err(BencodeCause::EndOfInput);
    }
    let first = input[pos];
    if first == 105 {
        match decode_integer(input, pos) {
            Ok((v, end)) => Ok((BencodeValue::Integer(v), end)),
            Err(cause) => Err(cause),
        }
    } else if 48 <= first && first <= 57 {
        match decode_string(input, pos) {
            Ok((b, end)) => Ok((BencodeValue::ByteString(b), end)),
            Err(cause) => Err(cause),
        }
    } else if first == 108 {
        match decode_list(input, pos + 1) {
            Ok((l, end)) => Ok((BencodeValue::List(l), end)),
            Err(cause) => Err(cause),
        }
    } else if first == 100 {
        match decode_dict(input, pos + 1) {
            Ok((d, end)) => Ok((BencodeValue::Dictionary(d), end)),
            Err(cause) => Err(cause),
        }
    } else {
        Err(BencodeCause::UnexpectedByte)
    }
}

fn decode_list(input: &[u8], start: usize) -> (res: Result<(Vec<BencodeValue>, usize), BencodeCause>)
    requires
        start <= input@.len(),
    ensures
        match res {
            Ok((l, end)) => decode_list_at(input@, start as int) == Ok::<
                (Seq<BencodeView>, int),
                BencodeCause,
            >((list_view(&l), end as int)) && start < end <= input@.len(),
            Err(cause) => decode_list_at(input@, start as int) == Err::<
                (Seq<BencodeView>, int),
                BencodeCause,
            >(cause),
        },
    decreases input@.len() - start, 1int,
{
    let mut items: Vec<BencodeValue> = Vec::new();
    let mut pos: usize = start;
    assert(list_view(&items) =~= Seq::empty());
    loop
        invariant
            start <= pos <= input@.len(),
            decode_list_at(input@, start as int) == prepend_list(
                list_view(&items),
                decode_list_at(input@, pos as int),
            ),
        decreases input@.len() - pos,
    {
        if pos >= input.len() {
            return Err(BencodeCause::UnterminatedList);
        }
        if input[pos] == 101 {
            assert(list_view(&items) + Seq::<BencodeView>::empty() =~= list_view(&items));
            return Ok((items, pos + 1));
        }
        match decode_value(input, pos) {
            Err(cause) => {
                return Err(cause);
            },
            Ok((v, next)) => {
                let ghost before = list_view(&items);
                let ghost tail = decode_list_at(input@, next as int);
                items.push(v);
                proof {
                    assert(list_view(&items) =~= before.push(v@));
                    match tail {
                        Ok((l, end)) => {
                            assert(before + (seq![v@] + l) =~= before.push(v@) + l);
                        },
                        Err(_) => {},
                    }
                }
                pos = next;
            },
        }
    }
}

fn decode_dict(input: &[u8], start: usize) -> (res: Result<(BencodeDict, usize), BencodeCause>)
    requires
        start <= input@.len(),
    ensures
        match res {
            Ok((d, end)) => decode_dict_at(input@, start as int, Seq::empty()) == Ok::<
                (DictView, int),
                BencodeCause,
            >((d@, end as int)) && start < end <= input@.len(),
            Err(cause) => decode_dict_at(input@, start as int, Seq::empty()) == Err::<
                (DictView, int),
                BencodeCause,
            >(cause),
        },
    decreases input@.len() - start, 1int,
{
    let mut dict = BencodeDict::new();
    let mut pos: usize = start;
    loop
        invariant
            start <= pos <= input@.len(),
            decode_dict_at(input@, start as int, Seq::empty()) == decode_dict_at(
                input@,
                pos as int,
                dict@,
            ),
        decreases input@.len() - pos,
    {
        if pos >= input.len() {
            return Err(BencodeCause::UnterminatedDictionary);
        }
        if input[pos] == 101 {
            return Ok((dict, pos + 1));
        }
        match decode_value(input, pos) {
            Err(cause) => {
                return Err(cause);
            },
            Ok((BencodeValue::ByteString(key), mid)) => {
                match decode_value(input, mid) {
                    Err(cause) => {
                        return Err(cause);
                    },
                    Ok((value, next)) => {
                        dict.insert(key, value);
                        pos = next;
                    },
                }
            },
            Ok(_) => {
                return Err(BencodeCause::KeyNotString);
            },
        }
    }
}

/// Decodes the first bencoded value of `encoded_value` and returns it with
/// the bytes that follow it. Of two dictionary entries with one key the later
/// one stays, and the decoded dictionary holds its keys in ascending order.
/// Bytes that are not bencode are rejected as `MalformedBencode`, with the
/// cause of the first fault met; nothing is decoded in part.
pub fn decode_bencoded_value(encoded_value: &[u8]) -> (res: Result<(BencodeValue, &[u8]), TorrentError>)
    ensures
        match res {
            Ok((value, rest)) => spec_decode(encoded_value@) == Ok::<
                (BencodeView, Seq<u8>),
                BencodeCause,
            >((value@, rest@)) && value@.wf(),
            Err(error) => error matches TorrentError::MalformedBencode(cause) && spec_decode(
                encoded_value@,
            ) == Err::<(BencodeView, Seq<u8>), BencodeCause>(cause),
        },
{
    match decode_value(encoded_value, 0) {
        Ok((value, end)) => {
            proof {
                lemma_decode_wf(encoded_value@, 0);
            }
            let rest = slice_subrange(encoded_value, end, encoded_value.len());
            Ok((value, rest))
        },
        Err(cause) => Err(TorrentError::MalformedBencode(cause)),
    }
}

} // verus!
