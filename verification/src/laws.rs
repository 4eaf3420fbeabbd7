//! What holds of the codec as a whole: decoding undoes encoding, decoded
//! values are well formed, and a dictionary's keys are written in ascending
//! order.

use crate::bencode::{dict_get, dict_insert, insert_position, key_index, sorted_keys};
use crate::bencode::{lemma_insert_get, lemma_insert_keeps_sorted, lemma_insert_last};
use crate::bencode::{lemma_insert_position, lemma_key_index};
use crate::bencode::{BencodeCause, BencodeView, DictView};
use crate::codec::{decode_at, decode_dict_at, decode_list_at, lemma_find_byte_is};
use crate::codec::{encode_entries_from, encode_integer, encode_list_from, encode_string};
use crate::codec::{spec_decode, spec_encode};
use crate::decimal::{int_to_dec, is_digit, lemma_int_to_dec, lemma_nat_to_dec, nat_to_dec};
use crate::lex::{bytes_lt, lemma_bytes_lt_asymmetric, lemma_bytes_lt_irreflexive};
use vstd::prelude::*;

verus! {

/// The bytes of `s` from `pos` on start with `part`.
pub open spec fn holds_at(s: Seq<u8>, pos: int, part: Seq<u8>) -> bool {
    &&& 0 <= pos
    &&& pos + part.len() <= s.len()
    &&& s.subrange(pos, pos + part.len()) == part
}

proof fn lemma_holds_at_index(s: Seq<u8>, pos: int, part: Seq<u8>, k: int)
    requires
        holds_at(s, pos, part),
        0 <= k < part.len(),
    ensures
        s[pos + k] == part[k],
{
    assert(s.subrange(pos, pos + part.len())[k] == s[pos + k]);
}

proof fn lemma_holds_at_split(s: Seq<u8>, pos: int, a: Seq<u8>, b: Seq<u8>)
    requires
        holds_at(s, pos, a + b),
    ensures
        holds_at(s, pos, a),
        holds_at(s, pos + a.len(), b),
{
    let whole = s.subrange(pos, pos + (a + b).len());
    assert(s.subrange(pos, pos + a.len()) =~= whole.subrange(0, a.len() as int));
    assert(whole.subrange(0, a.len() as int) =~= a);
    assert(s.subrange(pos + a.len(), pos + a.len() + b.len()) =~= whole.subrange(
        a.len() as int,
        (a + b).len() as int,
    ));
    assert(whole.subrange(a.len() as int, (a + b).len() as int) =~= b);
}

/// An encoding is never empty, and starts with `i`, `l`, `d` or a digit.
pub proof fn lemma_encode_first_byte(v: BencodeView)
    ensures
        spec_encode(v).len() > 0,
        spec_encode(v)[0] == 105 || spec_encode(v)[0] == 108 || spec_encode(v)[0] == 100
            || is_digit(spec_encode(v)[0]),
{
    match v {
        BencodeView::ByteString(b) => {
            lemma_nat_to_dec(b.len());
            assert(is_digit(nat_to_dec(b.len())[0]));
        },
        _ => {},
    }
}

/// Decoding the encoding of a byte string gives the byte string back.
pub proof fn lemma_string_roundtrip(b: Seq<u8>, s: Seq<u8>, pos: int)
    requires
        holds_at(s, pos, encode_string(b)),
    ensures
        decode_at(s, pos) == Ok::<(BencodeView, int), BencodeCause>(
            (BencodeView::ByteString(b), pos + encode_string(b).len()),
        ),
        is_digit(s[pos]),
{
    let dec = nat_to_dec(b.len());
    let enc = encode_string(b);
    lemma_nat_to_dec(b.len());
    let colon = pos + dec.len();
    assert forall|k: int| pos <= k < colon implies s[k] != 58 by {
        lemma_holds_at_index(s, pos, enc, k - pos);
        assert(enc[k - pos] == dec[k - pos]);
        assert(is_digit(dec[k - pos]));
    }
    lemma_holds_at_index(s, pos, enc, dec.len() as int);
    lemma_holds_at_index(s, pos, enc, 0);
    assert(enc[0] == dec[0] && is_digit(dec[0]));
    lemma_find_byte_is(s, pos, 58, colon);
    lemma_holds_at_split(s, pos, dec + seq![58u8], b);
    lemma_holds_at_split(s, pos, dec, seq![58u8]);
    assert(s.subrange(pos, colon) == dec);
    assert(s.subrange(colon + 1, colon + 1 + b.len()) == b);
}

/// Decoding the encoding of an integer gives the integer back.
pub proof fn lemma_integer_roundtrip(i: i64, s: Seq<u8>, pos: int)
    requires
        holds_at(s, pos, encode_integer(i)),
    ensures
        decode_at(s, pos) == Ok::<(BencodeView, int), BencodeCause>(
            (BencodeView::Integer(i), pos + encode_integer(i).len()),
        ),
{
    let dec = int_to_dec(i as int);
    let enc = encode_integer(i);
    lemma_int_to_dec(i as int);
    let end = pos + 1 + dec.len();
    lemma_holds_at_index(s, pos, enc, 0);
    assert forall|k: int| pos + 1 <= k < end implies s[k] != 101 by {
        lemma_holds_at_index(s, pos, enc, k - pos);
        assert(enc[k - pos] == dec[k - pos - 1]);
        assert(is_digit(dec[k - pos - 1]) || dec[k - pos - 1] == 45);
    }
    lemma_holds_at_index(s, pos, enc, 1 + dec.len() as int);
    lemma_find_byte_is(s, pos + 1, 101, end);
    lemma_holds_at_split(s, pos, seq![105u8] + dec, seq![101u8]);
    lemma_holds_at_split(s, pos, seq![105u8], dec);
    assert(s.subrange(pos + 1, end) == dec);
}

/// Decoding the encoding of a well-formed value gives the value back, and
/// stops right behind the encoding, wherever in the input it stands.
pub proof fn lemma_roundtrip_at(v: BencodeView, s: Seq<u8>, pos: int)
    requires
        v.wf(),
        holds_at(s, pos, spec_encode(v)),
    ensures
        decode_at(s, pos) == Ok::<(BencodeView, int), BencodeCause>((v, pos + spec_encode(v).len())),
    decreases v, 0int,
{
    match v {
        BencodeView::Integer(i) => {
            lemma_integer_roundtrip(i, s, pos);
        },
        BencodeView::ByteString(b) => {
            lemma_string_roundtrip(b, s, pos);
        },
        BencodeView::List(l) => {
            let body = encode_list_from(l, 0);
            let enc = spec_encode(v);
            lemma_holds_at_index(s, pos, enc, 0);
            lemma_holds_at_index(s, pos, enc, 1 + body.len() as int);
            lemma_holds_at_split(s, pos, seq![108u8] + body, seq![101u8]);
            lemma_holds_at_split(s, pos, seq![108u8], body);
            lemma_roundtrip_list(l, 0, s, pos + 1);
            assert(l.skip(0) =~= l);
        },
        BencodeView::Dictionary(d) => {
            let body = encode_entries_from(d, 0);
            let enc = spec_encode(v);
            lemma_holds_at_index(s, pos, enc, 0);
            lemma_holds_at_index(s, pos, enc, 1 + body.len() as int);
            lemma_holds_at_split(s, pos, seq![100u8] + body, seq![101u8]);
            lemma_holds_at_split(s, pos, seq![100u8], body);
            lemma_roundtrip_dict(d, 0, s, pos + 1);
            assert(d.take(0) =~= Seq::<(Seq<u8>, BencodeView)>::empty());
        },
    }
}

proof fn lemma_roundtrip_list(l: Seq<BencodeView>, i: int, s: Seq<u8>, pos: int)
    requires
        0 <= i <= l.len(),
        forall|k: int| 0 <= k < l.len() ==> (#[trigger] l[k]).wf(),
        holds_at(s, pos, encode_list_from(l, i)),
        pos + encode_list_from(l, i).len() < s.len(),
        s[pos + encode_list_from(l, i).len()] == 101,
    ensures
        decode_list_at(s, pos) == Ok::<(Seq<BencodeView>, int), BencodeCause>(
            (l.skip(i), pos + encode_list_from(l, i).len() + 1),
        ),
    decreases l, l.len() - i,
{
    if i == l.len() {
        assert(l.skip(i) =~= Seq::<BencodeView>::empty());
    } else {
        let first = spec_encode(l[i]);
        let rest = encode_list_from(l, i + 1);
        lemma_holds_at_split(s, pos, first, rest);
        lemma_encode_first_byte(l[i]);
        lemma_holds_at_index(s, pos, first, 0);
        assert(l[i].wf());
        lemma_roundtrip_at(l[i], s, pos);
        lemma_roundtrip_list(l, i + 1, s, pos + first.len());
        assert(seq![l[i]] + l.skip(i + 1) =~= l.skip(i));
    }
}

proof fn lemma_roundtrip_dict(d: DictView, i: int, s: Seq<u8>, pos: int)
    requires
        0 <= i <= d.len(),
        sorted_keys(d),
        forall|k: int| 0 <= k < d.len() ==> (#[trigger] d[k]).1.wf(),
        holds_at(s, pos, encode_entries_from(d, i)),
        pos + encode_entries_from(d, i).len() < s.len(),
        s[pos + encode_entries_from(d, i).len()] == 101,
    ensures
        decode_dict_at(s, pos, d.take(i)) == Ok::<(DictView, int), BencodeCause>(
            (d, pos + encode_entries_from(d, i).len() + 1),
        ),
    decreases d, d.len() - i,
{
    if i == d.len() {
        assert(d.take(i) =~= d);
    } else {
        let key = encode_string(d[i].0);
        let value = spec_encode(d[i].1);
        let rest = encode_entries_from(d, i + 1);
        lemma_holds_at_split(s, pos, key + value, rest);
        lemma_holds_at_split(s, pos, key, value);
        lemma_string_roundtrip(d[i].0, s, pos);
        assert(d[i].1.wf());
        lemma_roundtrip_at(d[i].1, s, pos + key.len());
        lemma_encode_first_byte(d[i].1);
        let front = d.take(i);
        assert forall|k: int| 0 <= k < front.len() implies bytes_lt(#[trigger] front[k].0, d[i].0) by {
            assert(front[k] == d[k]);
        }
        lemma_insert_last(front, d[i].0, d[i].1);
        assert(front.push((d[i].0, d[i].1)) =~= d.take(i + 1));
        lemma_roundtrip_dict(d, i + 1, s, pos + key.len() + value.len());
    }
}

/// Decoding undoes encoding: a well-formed value, encoded and followed by
/// any bytes, decodes to itself with exactly those bytes left over.
pub proof fn theorem_decode_encode(v: BencodeView, rest: Seq<u8>)
    requires
        v.wf(),
    ensures
        spec_decode(spec_encode(v) + rest) == Ok::<(BencodeView, Seq<u8>), BencodeCause>((v, rest)),
        spec_decode(spec_encode(v)) == Ok::<(BencodeView, Seq<u8>), BencodeCause>(
            (v, Seq::<u8>::empty()),
        ),
{
    let enc = spec_encode(v);
    let s = enc + rest;
    assert(s.subrange(0, enc.len() as int) =~= enc);
    lemma_roundtrip_at(v, s, 0);
    assert(s.subrange(enc.len() as int, s.len() as int) =~= rest);
    assert(enc.subrange(0, enc.len() as int) =~= enc);
    lemma_roundtrip_at(v, enc, 0);
    assert(enc.subrange(enc.len() as int, enc.len() as int) =~= Seq::<u8>::empty());
}

/// Every value of `d` is well formed.
pub open spec fn values_wf(d: DictView) -> bool {
    forall|k: int| 0 <= k < d.len() ==> (#[trigger] d[k]).1.wf()
}

/// Inserting a well-formed value among well-formed values leaves all of them
/// well formed.
pub proof fn lemma_insert_values_wf(d: DictView, key: Seq<u8>, value: BencodeView)
    requires
        values_wf(d),
        value.wf(),
    ensures
        values_wf(dict_insert(d, key, value)),
{
    let p = insert_position(d, key, 0);
    let r = dict_insert(d, key, value);
    lemma_insert_position(d, key, 0);
    assert forall|k: int| 0 <= k < r.len() implies (#[trigger] r[k]).1.wf() by {
        if p < d.len() && d[p].0 == key {
            if k != p {
                assert(r[k] == d[k]);
            }
        } else if k < p {
            assert(r[k] == d[k]);
        } else if k > p {
            assert(r[k] == d[k - 1]);
        }
    }
}

/// Whatever decodes is well formed: the keys of each dictionary ascend
/// strictly, in whatever order the input wrote them.
pub proof fn lemma_decode_wf(s: Seq<u8>, pos: int)
    ensures
        decode_at(s, pos) matches Ok((v, _)) ==> v.wf(),
    decreases s.len() - pos, 0int,
{
    if 0 <= pos < s.len() {
        if s[pos] == 108 {
            lemma_decode_list_wf(s, pos + 1);
        } else if s[pos] == 100 && s[pos] != 105 && !is_digit(s[pos]) {
            lemma_decode_dict_wf(s, pos + 1, Seq::empty());
        }
    }
}

proof fn lemma_decode_list_wf(s: Seq<u8>, pos: int)
    ensures
        decode_list_at(s, pos) matches Ok((l, _)) ==> forall|k: int|
            0 <= k < l.len() ==> (#[trigger] l[k]).wf(),
    decreases s.len() - pos, 1int,
{
    if 0 <= pos < s.len() && s[pos] != 101 {
        match decode_at(s, pos) {
            Ok((v, next)) => {
                lemma_decode_wf(s, pos);
                if pos < next <= s.len() {
                    lemma_decode_list_wf(s, next);
                }
            },
            Err(_) => {},
        }
    }
}

proof fn lemma_decode_dict_wf(s: Seq<u8>, pos: int, acc: DictView)
    requires
        sorted_keys(acc),
        values_wf(acc),
    ensures
        decode_dict_at(s, pos, acc) matches Ok((d, _)) ==> sorted_keys(d) && values_wf(d),
    decreases s.len() - pos, 1int,
{
    if 0 <= pos < s.len() && s[pos] != 101 {
        match decode_at(s, pos) {
            Ok((BencodeView::ByteString(key), mid)) => {
                if pos < mid <= s.len() {
                    match decode_at(s, mid) {
                        Ok((value, next)) => {
                            lemma_decode_wf(s, mid);
                            if mid < next <= s.len() {
                                lemma_insert_keeps_sorted(acc, key, value);
                                lemma_insert_values_wf(acc, key, value);
                                lemma_decode_dict_wf(s, next, dict_insert(acc, key, value));
                            }
                        },
                        Err(_) => {},
                    }
                }
            },
            _ => {},
        }
    }
}

/// Where the entry at index `i` starts in the encoding of the dictionary `d`.
pub open spec fn entry_offset(d: DictView, i: int) -> int {
    spec_encode(BencodeView::Dictionary(d)).len() - 1 - encode_entries_from(d, i).len()
}

proof fn lemma_entries_suffix(d: DictView, i: int)
    requires
        0 <= i <= d.len(),
    ensures
        encode_entries_from(d, i).len() <= encode_entries_from(d, 0).len(),
        encode_entries_from(d, 0).subrange(
            encode_entries_from(d, 0).len() - encode_entries_from(d, i).len(),
            encode_entries_from(d, 0).len() as int,
        ) == encode_entries_from(d, i),
    decreases i,
{
    let all = encode_entries_from(d, 0);
    if i == 0 {
        assert(all.subrange(0, all.len() as int) =~= all);
    } else {
        lemma_entries_suffix(d, i - 1);
        let prev = encode_entries_from(d, i - 1);
        let here = encode_entries_from(d, i);
        let entry = encode_string(d[i - 1].0) + spec_encode(d[i - 1].1);
        assert(prev == entry + here);
        assert(prev.subrange(entry.len() as int, prev.len() as int) =~= here);
        assert(all.subrange(all.len() - here.len(), all.len() as int) =~= all.subrange(
            all.len() - prev.len(),
            all.len() as int,
        ).subrange(entry.len() as int, prev.len() as int));
    }
}

/// A dictionary's keys are written in ascending byte order: in the encoding
/// of a well-formed dictionary the entry at each index starts with its key,
/// and of two entries the one with the smaller key starts first.
pub proof fn lemma_encoded_keys_ascend(d: DictView, i: int, j: int)
    requires
        BencodeView::Dictionary(d).wf(),
        0 <= i < j < d.len(),
    ensures
        holds_at(spec_encode(BencodeView::Dictionary(d)), entry_offset(d, i), encode_string(d[i].0)),
        holds_at(spec_encode(BencodeView::Dictionary(d)), entry_offset(d, j), encode_string(d[j].0)),
        entry_offset(d, i) < entry_offset(d, j),
        bytes_lt(d[i].0, d[j].0),
{
    lemma_entry_starts_with_key(d, i);
    lemma_entry_starts_with_key(d, j);
    lemma_entries_shrink(d, i, j);
}

proof fn lemma_entry_starts_with_key(d: DictView, i: int)
    requires
        0 <= i < d.len(),
    ensures
        holds_at(spec_encode(BencodeView::Dictionary(d)), entry_offset(d, i), encode_string(d[i].0)),
{
    let enc = spec_encode(BencodeView::Dictionary(d));
    let all = encode_entries_from(d, 0);
    let here = encode_entries_from(d, i);
    let key = encode_string(d[i].0);
    lemma_entries_suffix(d, i);
    let off = entry_offset(d, i);
    assert(enc.subrange(off, off + here.len()) =~= all.subrange(
        all.len() - here.len(),
        all.len() as int,
    ));
    assert(enc.subrange(off, off + key.len()) =~= here.subrange(0, key.len() as int));
    assert(here.subrange(0, key.len() as int) =~= key);
}

proof fn lemma_entries_shrink(d: DictView, i: int, j: int)
    requires
        0 <= i < j <= d.len(),
    ensures
        encode_entries_from(d, j).len() < encode_entries_from(d, i).len(),
    decreases j - i,
{
    lemma_nat_to_dec(d[i].0.len());
    if i + 1 < j {
        lemma_entries_shrink(d, i + 1, j);
    }
}

/// The dictionary as a map from keys to values.
pub open spec fn as_map(d: DictView) -> Map<Seq<u8>, BencodeView> {
    Map::new(|key: Seq<u8>| dict_get(d, key).is_some(), |key: Seq<u8>| dict_get(d, key).unwrap())
}

/// Inserting into a dictionary is inserting into its map.
pub proof fn lemma_insert_as_map(d: DictView, key: Seq<u8>, value: BencodeView)
    requires
        sorted_keys(d),
    ensures
        as_map(dict_insert(d, key, value)) == as_map(d).insert(key, value),
{
    let r = dict_insert(d, key, value);
    assert forall|other: Seq<u8>| #[trigger]
        dict_get(r, other) == if other == key {
            Some(value)
        } else {
            dict_get(d, other)
        } by {
        lemma_insert_get(d, key, value, other);
    }
    assert(as_map(r) =~= as_map(d).insert(key, value));
}

proof fn lemma_key_index_drop_first(d: DictView, key: Seq<u8>, i: int)
    requires
        d.len() > 0,
        0 <= i < d.len(),
    ensures
        key_index(d.drop_first(), key, i) + 1 == key_index(d, key, i + 1),
    decreases d.len() - i,
{
    let t = d.drop_first();
    if i < t.len() {
        assert(t[i] == d[i + 1]);
        if t[i].0 != key {
            lemma_key_index_drop_first(d, key, i + 1);
        }
    }
}

proof fn lemma_get_drop_first(d: DictView, key: Seq<u8>)
    requires
        d.len() > 0,
        sorted_keys(d),
    ensures
        dict_get(d.drop_first(), key) == if key == d[0].0 {
            None
        } else {
            dict_get(d, key)
        },
        sorted_keys(d.drop_first()),
{
    let t = d.drop_first();
    assert forall|i: int, j: int| 0 <= i < j < t.len() implies bytes_lt(
        #[trigger] t[i].0,
        #[trigger] t[j].0,
    ) by {
        assert(t[i] == d[i + 1] && t[j] == d[j + 1]);
    }
    lemma_key_index(t, key, 0);
    lemma_key_index(d, key, 0);
    lemma_key_index_drop_first(d, key, 0);
    let ti = key_index(t, key, 0);
    if key == d[0].0 {
        if ti < t.len() {
            assert(t[ti] == d[ti + 1]);
            assert(bytes_lt(d[0].0, d[ti + 1].0));
            lemma_bytes_lt_irreflexive(key);
        }
    } else {
        if ti < t.len() {
            assert(t[ti] == d[ti + 1]);
        }
    }
}

/// Two dictionaries with ascending keys that bind every key alike are the
/// same sequence of entries: a dictionary has one canonical form.
pub proof fn lemma_sorted_dicts_equal(a: DictView, b: DictView)
    requires
        sorted_keys(a),
        sorted_keys(b),
        forall|key: Seq<u8>| #[trigger] dict_get(a, key) == dict_get(b, key),
    ensures
        a == b,
    decreases a.len(),
{
    if a.len() == 0 {
        if b.len() > 0 {
            lemma_key_index(b, b[0].0, 0);
            assert(dict_get(a, b[0].0) == dict_get(b, b[0].0));
        }
        assert(a =~= b);
    } else {
        let key = a[0].0;
        lemma_key_index(a, key, 0);
        lemma_key_index(b, key, 0);
        assert(dict_get(a, key) == dict_get(b, key));
        let j = key_index(b, key, 0);
        assert(j < b.len() && b[j].0 == key && b[j].1 == a[0].1);
        if j > 0 {
            let low = b[0].0;
            assert(bytes_lt(b[0].0, b[j].0));
            lemma_key_index(b, low, 0);
            lemma_key_index(a, low, 0);
            assert(dict_get(a, low) == dict_get(b, low));
            let i = key_index(a, low, 0);
            assert(i < a.len() && a[i].0 == low);
            if i == 0 {
                lemma_bytes_lt_irreflexive(key);
            } else {
                assert(bytes_lt(a[0].0, a[i].0));
                lemma_bytes_lt_asymmetric(key, low);
            }
        }
        assert(a[0] == b[0]);
        let ta = a.drop_first();
        let tb = b.drop_first();
        assert forall|other: Seq<u8>| #[trigger] dict_get(ta, other) == dict_get(tb, other) by {
            lemma_get_drop_first(a, other);
            lemma_get_drop_first(b, other);
            assert(dict_get(a, other) == dict_get(b, other));
        }
        lemma_get_drop_first(a, key);
        lemma_get_drop_first(b, key);
        lemma_sorted_dicts_equal(ta, tb);
        assert(a =~= seq![a[0]] + ta);
        assert(b =~= seq![b[0]] + tb);
    }
}

/// The order of insertion does not matter: two entries with different keys,
/// inserted either way round, give the same dictionary, and so the same
/// encoding.
pub proof fn lemma_insertion_order(
    d: DictView,
    k1: Seq<u8>,
    v1: BencodeView,
    k2: Seq<u8>,
    v2: BencodeView,
)
    requires
        sorted_keys(d),
        k1 != k2,
    ensures
        dict_insert(dict_insert(d, k1, v1), k2, v2) == dict_insert(dict_insert(d, k2, v2), k1, v1),
        spec_encode(BencodeView::Dictionary(dict_insert(dict_insert(d, k1, v1), k2, v2)))
            == spec_encode(BencodeView::Dictionary(dict_insert(dict_insert(d, k2, v2), k1, v1))),
{
    let a1 = dict_insert(d, k1, v1);
    let a = dict_insert(a1, k2, v2);
    let b1 = dict_insert(d, k2, v2);
    let b = dict_insert(b1, k1, v1);
    lemma_insert_keeps_sorted(d, k1, v1);
    lemma_insert_keeps_sorted(a1, k2, v2);
    lemma_insert_keeps_sorted(d, k2, v2);
    lemma_insert_keeps_sorted(b1, k1, v1);
    assert forall|key: Seq<u8>| #[trigger] dict_get(a, key) == dict_get(b, key) by {
        lemma_insert_get(d, k1, v1, key);
        lemma_insert_get(a1, k2, v2, key);
        lemma_insert_get(d, k2, v2, key);
        lemma_insert_get(b1, k1, v1, key);
    }
    lemma_sorted_dicts_equal(a, b);
}

} // verus!
