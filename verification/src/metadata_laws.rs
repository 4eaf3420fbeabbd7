//! What holds of the metadata model as a whole: the identity hash of a
//! description that was read from a file is the hash of that file's own
//! description, written canonically.

use crate::bencode::{dict_get, dict_insert, key_index, sorted_keys};
use crate::bencode::{lemma_insert_get, lemma_insert_keeps_sorted, lemma_key_index};
use crate::bencode::{BencodeView, DictView};
use crate::codec::{spec_decode, spec_encode};
use crate::bencode::BencodeCause;
use crate::laws::{lemma_insert_values_wf, theorem_decode_encode, values_wf};
use crate::hash::sha1;
use crate::laws::lemma_sorted_dicts_equal;
use crate::torrent::{file_of, file_value, files_from, files_value, path_from, path_value};
use crate::torrent::{hashes_of, identity_hash, info_of, info_value, join_from, key, layout_entry};
use crate::torrent::{spec_parse, FileView, InfoView, LayoutView, TorrentView};
use vstd::prelude::*;
use vstd::utf8::{decode_utf8_encode_utf8, is_ascii_chars_encode_utf8};

verus! {

/// The keys of a description are five different byte strings.
pub proof fn lemma_keys_distinct()
    ensures
        key("files") != key("length"),
        key("files") != key("name"),
        key("files") != key("piece length"),
        key("files") != key("pieces"),
        key("length") != key("name"),
        key("length") != key("piece length"),
        key("length") != key("pieces"),
        key("name") != key("piece length"),
        key("name") != key("pieces"),
        key("piece length") != key("pieces"),
{
    reveal_strlit("files");
    reveal_strlit("length");
    reveal_strlit("name");
    reveal_strlit("piece length");
    reveal_strlit("pieces");
    is_ascii_chars_encode_utf8("files"@);
    is_ascii_chars_encode_utf8("length"@);
    is_ascii_chars_encode_utf8("name"@);
    is_ascii_chars_encode_utf8("piece length"@);
    is_ascii_chars_encode_utf8("pieces"@);
    assert(key("files").len() == 5);
    assert(key("length").len() == 6);
    assert(key("name").len() == 4);
    assert(key("piece length").len() == 12);
    assert(key("pieces").len() == 6);
    assert("length"@[0] == 'l');
    assert("pieces"@[0] == 'p');
    assert(key("length")[0] == 108);
    assert(key("pieces")[0] == 112);
}

/// Piece hashes that were cut from a byte string join to that byte string.
pub proof fn lemma_join_hashes(b: Seq<u8>, i: int)
    requires
        b.len() % 20 == 0,
        0 <= i <= b.len() / 20,
    ensures
        join_from(hashes_of(b), i) == b.subrange(20 * i, b.len() as int),
    decreases b.len() / 20 - i,
{
    let hashes = hashes_of(b);
    if i < b.len() / 20 {
        lemma_join_hashes(b, i + 1);
        assert(hashes[i] == b.subrange(20 * i, 20 * i + 20));
        assert(hashes[i] + b.subrange(20 * (i + 1), b.len() as int) =~= b.subrange(
            20 * i,
            b.len() as int,
        ));
    } else {
        assert(b.subrange(20 * i, b.len() as int) =~= Seq::<u8>::empty());
    }
}

/// The segments of a path that was read from a list are written back as
/// that list.
pub proof fn lemma_path_value(ps: Seq<BencodeView>, i: int)
    requires
        0 <= i <= ps.len(),
        path_from(ps, i) is Ok,
    ensures
        path_from(ps, i).unwrap().len() == ps.len() - i,
        forall|k: int|
            0 <= k < ps.len() - i ==> BencodeView::ByteString(
                vstd::utf8::encode_utf8(#[trigger] path_from(ps, i).unwrap()[k]),
            ) == ps[i + k],
    decreases ps.len() - i,
{
    if i < ps.len() {
        let b = ps[i]->ByteString_0;
        decode_utf8_encode_utf8(b);
        lemma_path_value(ps, i + 1);
        let path = path_from(ps, i).unwrap();
        let rest = path_from(ps, i + 1).unwrap();
        assert forall|k: int| 0 <= k < ps.len() - i implies BencodeView::ByteString(
            vstd::utf8::encode_utf8(#[trigger] path[k]),
        ) == ps[i + k] by {
            if k > 0 {
                assert(path[k] == rest[k - 1]);
            }
        }
    }
}

/// A file's own dictionary binds `length` and `path` and nothing else, in
/// ascending order of the keys.
pub open spec fn plain_file(v: BencodeView) -> bool {
    v matches BencodeView::Dictionary(d) && sorted_keys(d) && d.len() == 2
}

/// A file that was read from a dictionary of `length` and `path` alone is
/// written back as that dictionary.
pub proof fn lemma_file_value(v: BencodeView)
    requires
        plain_file(v),
        file_of(v) is Ok,
    ensures
        file_value(file_of(v).unwrap()) == v,
{
    let d = v->Dictionary_0;
    let file = file_of(v).unwrap();
    reveal_strlit("length");
    reveal_strlit("path");
    is_ascii_chars_encode_utf8("length"@);
    is_ascii_chars_encode_utf8("path"@);
    let k_length = key("length");
    let k_path = key("path");
    assert(k_length.len() == 6 && k_path.len() == 4);
    let ps = dict_get(d, k_path).unwrap()->List_0;
    lemma_path_value(ps, 0);
    assert(path_value(file.path)->List_0 =~= ps);
    let v_length = BencodeView::Integer(file.length as i64);
    let v_path = BencodeView::List(ps);
    let e0 = Seq::<(Seq<u8>, BencodeView)>::empty();
    let e1 = dict_insert(e0, k_length, v_length);
    let e2 = dict_insert(e1, k_path, v_path);
    lemma_insert_keeps_sorted(e0, k_length, v_length);
    lemma_insert_keeps_sorted(e1, k_path, v_path);
    lemma_key_index(d, k_length, 0);
    lemma_key_index(d, k_path, 0);
    assert forall|k: Seq<u8>| #[trigger] dict_get(e2, k) == dict_get(d, k) by {
        lemma_insert_get(e0, k_length, v_length, k);
        lemma_insert_get(e1, k_path, v_path, k);
        assert(dict_get(e0, k) is None);
        if k != k_length && k != k_path {
            lemma_key_index(d, k, 0);
            let j = key_index(d, k, 0);
            if j < d.len() {
                assert(d[j].0 == k);
                assert(j != key_index(d, k_length, 0));
                assert(j != key_index(d, k_path, 0));
            }
        }
    }
    lemma_sorted_dicts_equal(e2, d);
}

/// Files that were read from a list of plain dictionaries are written back
/// as that list.
pub proof fn lemma_files_value(fs: Seq<BencodeView>, i: int)
    requires
        0 <= i <= fs.len(),
        files_from(fs, i) is Ok,
        forall|k: int| 0 <= k < fs.len() ==> plain_file(#[trigger] fs[k]),
    ensures
        files_from(fs, i).unwrap().len() == fs.len() - i,
        forall|k: int|
            0 <= k < fs.len() - i ==> file_value(#[trigger] files_from(fs, i).unwrap()[k]) == fs[i
                + k],
    decreases fs.len() - i,
{
    if i < fs.len() {
        assert(plain_file(fs[i]));
        lemma_file_value(fs[i]);
        lemma_files_value(fs, i + 1);
        let files = files_from(fs, i).unwrap();
        let rest = files_from(fs, i + 1).unwrap();
        assert forall|k: int| 0 <= k < fs.len() - i implies file_value(#[trigger] files[k]) == fs[i
            + k] by {
            if k > 0 {
                assert(files[k] == rest[k - 1]);
            }
        }
    }
}

/// The dictionary of a description binds the four keys of the model and
/// nothing else, in ascending order, and so does the dictionary of each of
/// its files.
pub open spec fn plain_description(d: DictView) -> bool {
    &&& sorted_keys(d)
    &&& d.len() == 4
    &&& match dict_get(d, key("files")) {
        Some(BencodeView::List(fs)) => forall|k: int| 0 <= k < fs.len() ==> plain_file(#[trigger] fs[k]),
        _ => true,
    }
}

/// A description that was read from a plain dictionary is written back as
/// that very dictionary. Its identity hash is therefore SHA-1 over the
/// canonical encoding of the dictionary it was read from.
pub proof fn lemma_hash_of_read_description(d: DictView)
    requires
        plain_description(d),
        info_of(d) is Ok,
    ensures
        info_value(info_of(d).unwrap()) == BencodeView::Dictionary(d),
        identity_hash(info_of(d).unwrap()) == sha1(spec_encode(BencodeView::Dictionary(d))),
{
    let info = info_of(d).unwrap();
    lemma_keys_distinct();
    let k_name = key("name");
    let k_plength = key("piece length");
    let k_pieces = key("pieces");
    let name_bytes = dict_get(d, k_name).unwrap()->ByteString_0;
    let pieces_bytes = dict_get(d, k_pieces).unwrap()->ByteString_0;
    decode_utf8_encode_utf8(name_bytes);
    lemma_join_hashes(pieces_bytes, 0);
    assert(pieces_bytes.subrange(0, pieces_bytes.len() as int) =~= pieces_bytes);
    let k_layout = layout_entry(info.layout).0;
    let v_layout = layout_entry(info.layout).1;
    let k_other = if k_layout == key("length") {
        key("files")
    } else {
        key("length")
    };
    match dict_get(d, key("files")) {
        Some(BencodeView::List(fs)) => {
            lemma_files_value(fs, 0);
            assert(files_value(info.layout->MultiFile_files)->List_0 =~= fs);
        },
        _ => {},
    }
    let v_name = BencodeView::ByteString(name_bytes);
    let v_plength = BencodeView::Integer(info.plength as i64);
    let v_pieces = BencodeView::ByteString(pieces_bytes);
    assert(dict_get(d, k_layout) == Some(v_layout));
    assert(dict_get(d, k_other) is None);
    assert(dict_get(d, k_name) == Some(v_name));
    assert(dict_get(d, k_plength) == Some(v_plength));
    assert(dict_get(d, k_pieces) == Some(v_pieces));
    let e0 = Seq::<(Seq<u8>, BencodeView)>::empty();
    let e1 = dict_insert(e0, k_layout, v_layout);
    let e2 = dict_insert(e1, k_name, v_name);
    let e3 = dict_insert(e2, k_plength, v_plength);
    let e4 = dict_insert(e3, k_pieces, v_pieces);
    assert(info_value(info) == BencodeView::Dictionary(e4));
    lemma_insert_keeps_sorted(e0, k_layout, v_layout);
    lemma_insert_keeps_sorted(e1, k_name, v_name);
    lemma_insert_keeps_sorted(e2, k_plength, v_plength);
    lemma_insert_keeps_sorted(e3, k_pieces, v_pieces);
    lemma_key_index(d, k_layout, 0);
    lemma_key_index(d, k_name, 0);
    lemma_key_index(d, k_plength, 0);
    lemma_key_index(d, k_pieces, 0);
    assert forall|k: Seq<u8>| #[trigger] dict_get(e4, k) == dict_get(d, k) by {
        lemma_insert_get(e0, k_layout, v_layout, k);
        lemma_insert_get(e1, k_name, v_name, k);
        lemma_insert_get(e2, k_plength, v_plength, k);
        lemma_insert_get(e3, k_pieces, v_pieces, k);
        assert(dict_get(e0, k) is None);
        if k != k_layout && k != k_name && k != k_plength && k != k_pieces {
            lemma_key_index(d, k, 0);
            let j = key_index(d, k, 0);
            if j < d.len() {
                assert(d[j].0 == k);
                assert(j != key_index(d, k_layout, 0));
                assert(j != key_index(d, k_name, 0));
                assert(j != key_index(d, k_plength, 0));
                assert(j != key_index(d, k_pieces, 0));
            }
        }
    }
    lemma_sorted_dicts_equal(e4, d);
}

/// The bencoded form of a description is well formed: its keys, and the
/// keys of each of its files, ascend. Its encoding is therefore canonical,
/// and decodes to the same form again.
pub proof fn lemma_info_value_canonical(info: InfoView)
    ensures
        info_value(info).wf(),
        spec_decode(spec_encode(info_value(info))) == Ok::<
            (BencodeView, Seq<u8>),
            BencodeCause,
        >(
            (info_value(info), Seq::<u8>::empty()),
        ),
{
    let layout = layout_entry(info.layout);
    match info.layout {
        LayoutView::SingleFile { length } => {},
        LayoutView::MultiFile { files } => {
            let fs = files_value(files)->List_0;
            assert forall|k: int| 0 <= k < fs.len() implies (#[trigger] fs[k]).wf() by {
                lemma_file_value_wf(files[k]);
            }
        },
    }
    assert(layout.1.wf());
    let v_name = BencodeView::ByteString(vstd::utf8::encode_utf8(info.name));
    let v_plength = BencodeView::Integer(info.plength as i64);
    let v_pieces = BencodeView::ByteString(join_from(info.pieces, 0));
    let e0 = Seq::<(Seq<u8>, BencodeView)>::empty();
    let e1 = dict_insert(e0, layout.0, layout.1);
    let e2 = dict_insert(e1, key("name"), v_name);
    let e3 = dict_insert(e2, key("piece length"), v_plength);
    let e4 = dict_insert(e3, key("pieces"), v_pieces);
    lemma_insert_keeps_sorted(e0, layout.0, layout.1);
    lemma_insert_keeps_sorted(e1, key("name"), v_name);
    lemma_insert_keeps_sorted(e2, key("piece length"), v_plength);
    lemma_insert_keeps_sorted(e3, key("pieces"), v_pieces);
    lemma_insert_values_wf(e0, layout.0, layout.1);
    lemma_insert_values_wf(e1, key("name"), v_name);
    lemma_insert_values_wf(e2, key("piece length"), v_plength);
    lemma_insert_values_wf(e3, key("pieces"), v_pieces);
    assert(values_wf(e4));
    theorem_decode_encode(info_value(info), Seq::empty());
}

proof fn lemma_file_value_wf(file: FileView)
    ensures
        file_value(file).wf(),
{
    let v_length = BencodeView::Integer(file.length as i64);
    let v_path = path_value(file.path);
    let segments = v_path->List_0;
    assert forall|k: int| 0 <= k < segments.len() implies (#[trigger] segments[k]).wf() by {}
    let e0 = Seq::<(Seq<u8>, BencodeView)>::empty();
    let e1 = dict_insert(e0, key("length"), v_length);
    let e2 = dict_insert(e1, key("path"), v_path);
    lemma_insert_keeps_sorted(e0, key("length"), v_length);
    lemma_insert_keeps_sorted(e1, key("path"), v_path);
    lemma_insert_values_wf(e0, key("length"), v_length);
    lemma_insert_values_wf(e1, key("path"), v_path);
    assert(values_wf(e2));
}

/// The identity hash is a function of the description in the file and of
/// nothing else: two metadata files whose top-level dictionaries bind `info`
/// alike have the same identity hash, whatever else they hold, and one file
/// read twice has one hash.
pub proof fn lemma_hash_depends_on_info_only(x: Seq<u8>, y: Seq<u8>)
    requires
        spec_parse(x) is Ok,
        spec_parse(y) is Ok,
        dict_get(spec_decode(x).unwrap().0->Dictionary_0, key("info")) == dict_get(
            spec_decode(y).unwrap().0->Dictionary_0,
            key("info"),
        ),
    ensures
        spec_parse(x).unwrap().info == spec_parse(y).unwrap().info,
        identity_hash(spec_parse(x).unwrap().info) == identity_hash(spec_parse(y).unwrap().info),
{
}

} // verus!
