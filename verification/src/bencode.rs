//! Bencode values, and dictionaries as sequences of entries in ascending
//! order of their keys.

use crate::lex::{bytes_lt, compare_bytes, ByteOrder};
use crate::lex::{lemma_bytes_lt_irreflexive, lemma_bytes_lt_total, lemma_bytes_lt_transitive};
use vstd::prelude::*;

verus! {

/// The mathematical value of a bencoded datum. A dictionary is the sequence
/// of its entries; in a well-formed value the keys ascend strictly.
pub enum BencodeView {
    Integer(i64),
    ByteString(Seq<u8>),
    List(Seq<BencodeView>),
    Dictionary(Seq<(Seq<u8>, BencodeView)>),
}

/// The entries of a dictionary, as a sequence.
pub type DictView = Seq<(Seq<u8>, BencodeView)>;

/// A bencoded datum.
#[derive(Debug, PartialEq, Eq)]
pub enum BencodeValue {
    Integer(i64),
    ByteString(Vec<u8>),
    List(Vec<BencodeValue>),
    Dictionary(BencodeDict),
}

/// A dictionary of bencoded data. Its entries are always held in strictly
/// ascending order of their keys, whatever the order they were inserted in.
#[derive(Debug, PartialEq, Eq)]
pub struct BencodeDict {
    entries: Vec<(Vec<u8>, BencodeValue)>,
}

/// Why a byte string is not bencode.
#[derive(Debug, Clone, Copy, PartialEq, Eq, Structural)]
pub enum BencodeCause {
    /// The input ends where a value has to start.
    EndOfInput,
    /// A value starts with a byte that is none of `i`, `l`, `d` or a digit.
    UnexpectedByte,
    /// An integer has no closing `e`.
    UnterminatedInteger,
    /// What stands between `i` and `e` is not a 64-bit decimal integer.
    InvalidInteger,
    /// A byte string's length has no `:` after it.
    UnterminatedString,
    /// A byte string's length holds a byte that is no digit.
    InvalidLength,
    /// A byte string's length exceeds what is left of the input.
    StringTooLong,
    /// A list has no closing `e`.
    UnterminatedList,
    /// A dictionary has no closing `e`.
    UnterminatedDictionary,
    /// A dictionary key is not a byte string.
    KeyNotString,
}

// ---------------------------------------------------------------------------
// Views
// ---------------------------------------------------------------------------

impl View for BencodeValue {
    type V = BencodeView;

    open spec fn view(&self) -> BencodeView
        decreases self,
    {
        match self {
            BencodeValue::Integer(i) => BencodeView::Integer(*i),
            BencodeValue::ByteString(b) => BencodeView::ByteString(b@),
            BencodeValue::List(l) => BencodeView::List(list_view(l)),
            BencodeValue::Dictionary(d) => BencodeView::Dictionary(d@),
        }
    }
}

/// The values of a list, as a sequence of views.
pub open spec fn list_view(l: &Vec<BencodeValue>) -> Seq<BencodeView>
    decreases l,
{
    Seq::new(
        l.len() as nat,
        |i: int|
            if 0 <= i < l.len() {
                l[i]@
            } else {
                BencodeView::Integer(0)
            },
    )
}

/// The entries of a vector of pairs, as a sequence of views.
pub open spec fn entries_view(entries: &Vec<(Vec<u8>, BencodeValue)>) -> DictView
    decreases entries,
{
    Seq::new(
        entries.len() as nat,
        |i: int|
            if 0 <= i < entries.len() {
                (entries[i].0@, entries[i].1@)
            } else {
                (Seq::empty(), BencodeView::Integer(0))
            },
    )
}

impl View for BencodeDict {
    type V = DictView;

    closed spec fn view(&self) -> DictView
        decreases self,
    {
        entries_view(&self.entries)
    }
}

// ---------------------------------------------------------------------------
// Dictionaries as sorted sequences
// ---------------------------------------------------------------------------

/// The keys of `d` ascend strictly, so no key occurs twice.
pub open spec fn sorted_keys(d: DictView) -> bool {
    forall|i: int, j: int| 0 <= i < j < d.len() ==> bytes_lt(#[trigger] d[i].0, #[trigger] d[j].0)
}

/// The first index at or after `i` whose key does not come before `key`
/// (the length of `d` if there is none).
pub open spec fn insert_position(d: DictView, key: Seq<u8>, i: int) -> int
    decreases d.len() - i,
{
    if i < 0 || i >= d.len() {
        d.len() as int
    } else if bytes_lt(d[i].0, key) {
        insert_position(d, key, i + 1)
    } else {
        i
    }
}

/// `d` with `key` bound to `value`: the entry replaces one with the same key,
/// or else takes its place in key order.
pub open spec fn dict_insert(d: DictView, key: Seq<u8>, value: BencodeView) -> DictView {
    let i = insert_position(d, key, 0);
    if i < d.len() && d[i].0 == key {
        d.update(i, (key, value))
    } else {
        d.insert(i, (key, value))
    }
}

/// The index of the entry of `d` with key `key`, searching from `i` (the
/// length of `d` if there is none).
pub open spec fn key_index(d: DictView, key: Seq<u8>, i: int) -> int
    decreases d.len() - i,
{
    if i < 0 || i >= d.len() {
        d.len() as int
    } else if d[i].0 == key {
        i
    } else {
        key_index(d, key, i + 1)
    }
}

/// The value that `d` binds `key` to, if any.
pub open spec fn dict_get(d: DictView, key: Seq<u8>) -> Option<BencodeView> {
    let i = key_index(d, key, 0);
    if i < d.len() {
        Some(d[i].1)
    } else {
        None
    }
}

/// What `insert_position` returns: everything before it comes before `key`,
/// and the entry at it does not.
pub proof fn lemma_insert_position(d: DictView, key: Seq<u8>, i: int)
    requires
        0 <= i <= d.len(),
    ensures
        i <= insert_position(d, key, i) <= d.len(),
        forall|k: int| i <= k < insert_position(d, key, i) ==> bytes_lt(#[trigger] d[k].0, key),
        insert_position(d, key, i) < d.len() ==> !bytes_lt(d[insert_position(d, key, i)].0, key),
    decreases d.len() - i,
{
    if i < d.len() && bytes_lt(d[i].0, key) {
        lemma_insert_position(d, key, i + 1);
    }
}

/// What `key_index` returns: the first entry at or after `i` with that key.
pub proof fn lemma_key_index(d: DictView, key: Seq<u8>, i: int)
    requires
        0 <= i <= d.len(),
    ensures
        i <= key_index(d, key, i) <= d.len(),
        forall|k: int| i <= k < key_index(d, key, i) ==> (#[trigger] d[k]).0 != key,
        key_index(d, key, i) < d.len() ==> d[key_index(d, key, i)].0 == key,
    decreases d.len() - i,
{
    if i < d.len() && d[i].0 != key {
        lemma_key_index(d, key, i + 1);
    }
}

/// Inserting into a dictionary with ascending keys leaves the keys ascending.
pub proof fn lemma_insert_keeps_sorted(d: DictView, key: Seq<u8>, value: BencodeView)
    requires
        sorted_keys(d),
    ensures
        sorted_keys(dict_insert(d, key, value)),
{
    let p = insert_position(d, key, 0);
    let r = dict_insert(d, key, value);
    lemma_insert_position(d, key, 0);
    if p < d.len() && d[p].0 == key {
        assert forall|i: int, j: int| 0 <= i < j < r.len() implies bytes_lt(
            #[trigger] r[i].0,
            #[trigger] r[j].0,
        ) by {
            assert(r[i].0 == d[i].0);
            assert(r[j].0 == d[j].0);
        }
    } else {
        assert forall|i: int, j: int| 0 <= i < j < r.len() implies bytes_lt(
            #[trigger] r[i].0,
            #[trigger] r[j].0,
        ) by {
            if j < p {
                assert(r[i] == d[i] && r[j] == d[j]);
            } else if j == p {
                assert(r[i] == d[i]);
                assert(bytes_lt(d[i].0, key));
            } else if i < p {
                assert(r[i] == d[i] && r[j] == d[j - 1]);
                if j - 1 == i {
                } else {
                    assert(bytes_lt(d[i].0, d[j - 1].0));
                }
            } else if i == p {
                assert(r[j] == d[j - 1]);
                lemma_bytes_lt_total(d[p].0, key);
                if j - 1 > p {
                    assert(bytes_lt(d[p].0, d[j - 1].0));
                    lemma_bytes_lt_transitive(key, d[p].0, d[j - 1].0);
                }
            } else {
                assert(r[i] == d[i - 1] && r[j] == d[j - 1]);
                assert(bytes_lt(d[i - 1].0, d[j - 1].0));
            }
        }
    }
}

/// A key that comes after every key of `d` is inserted at the end.
pub proof fn lemma_insert_last(d: DictView, key: Seq<u8>, value: BencodeView)
    requires
        forall|k: int| 0 <= k < d.len() ==> bytes_lt(#[trigger] d[k].0, key),
    ensures
        dict_insert(d, key, value) == d.push((key, value)),
{
    lemma_insert_position(d, key, 0);
    let p = insert_position(d, key, 0);
    if p < d.len() {
        assert(bytes_lt(d[p].0, key));
    }
    assert(d.insert(p, (key, value)) =~= d.push((key, value)));
}

/// After an insertion the key is bound to the value inserted, and every other
/// key is bound as before.
pub proof fn lemma_insert_get(d: DictView, key: Seq<u8>, value: BencodeView, other: Seq<u8>)
    requires
        sorted_keys(d),
    ensures
        dict_get(dict_insert(d, key, value), other) == if other == key {
            Some(value)
        } else {
            dict_get(d, other)
        },
{
    let p = insert_position(d, key, 0);
    let r = dict_insert(d, key, value);
    lemma_insert_position(d, key, 0);
    lemma_insert_keeps_sorted(d, key, value);
    lemma_key_index(r, other, 0);
    lemma_key_index(d, other, 0);
    let ri = key_index(r, other, 0);
    let di = key_index(d, other, 0);
    let replaced = p < d.len() && d[p].0 == key;
    assert(r[p] == (key, value));
    if other == key {
        if ri != p {
            if ri < r.len() {
                assert(r[ri].0 == key);
                if ri < p {
                    assert(bytes_lt(r[ri].0, r[p].0));
                } else {
                    assert(bytes_lt(r[p].0, r[ri].0));
                }
                lemma_bytes_lt_irreflexive(key);
            } else {
                assert(r[p].0 != other);
            }
        }
    } else if replaced {
        assert(forall|k: int| 0 <= k < d.len() && k != p ==> r[k] == d[k]);
        if di < d.len() {
            assert(di != p);
            assert(r[di].0 == other);
            if ri < di {
                assert(ri != p);
                assert(d[ri].0 != other);
            }
            if ri > di {
                assert(r[di].0 != other);
            }
        } else if ri < r.len() {
            assert(ri != p);
            assert(d[ri].0 != other);
        }
    } else {
        assert(forall|k: int| 0 <= k < p ==> r[k] == d[k]);
        assert(forall|k: int| p < k < r.len() ==> r[k] == d[k - 1]);
        if di < d.len() {
            let m = if di < p { di } else { di + 1 };
            assert(r[m].0 == other);
            if ri < m {
                if ri < p {
                    assert(d[ri].0 != other);
                } else if ri > p {
                    assert(d[ri - 1].0 != other);
                }
            }
            if ri > m {
                assert(r[m].0 != other);
            }
        } else if ri < r.len() {
            if ri < p {
                assert(d[ri].0 != other);
            } else if ri > p {
                assert(d[ri - 1].0 != other);
            }
        }
    }
}

// ---------------------------------------------------------------------------
// The dictionary type
// ---------------------------------------------------------------------------

impl BencodeDict {
    /// A dictionary without entries.
    pub fn new() -> (dict: BencodeDict)
        ensures
            dict@ == Seq::<(Seq<u8>, BencodeView)>::empty(),
            sorted_keys(dict@),
    {
        let entries: Vec<(Vec<u8>, BencodeValue)> = Vec::new();
        assert(entries_view(&entries) =~= Seq::empty());
        BencodeDict { entries }
    }

    /// The number of entries.
    pub fn len(&self) -> (n: usize)
        ensures
            n == self@.len(),
    {
        self.entries.len()
    }

    /// Binds `key` to `value`. An entry with the same key is replaced; a new
    /// entry takes its place in ascending key order.
    pub fn insert(&mut self, key: Vec<u8>, value: BencodeValue)
        ensures
            final(self)@ == dict_insert(old(self)@, key@, value@),
            sorted_keys(old(self)@) ==> sorted_keys(final(self)@),
    {
        proof {
            lemma_insert_position(self@, key@, 0);
            if sorted_keys(self@) {
                lemma_insert_keeps_sorted(self@, key@, value@);
            }
        }
        let ghost before = self@;
        let mut i: usize = 0;
        let mut same = false;
        while i < self.entries.len()
            invariant_except_break
                !same,
                insert_position(before, key@, i as int) == insert_position(before, key@, 0),
            invariant
                i <= self.entries.len(),
                self@ == before,
            ensures
                i <= self.entries.len(),
                self@ == before,
                i == insert_position(before, key@, 0),
                same == (i < before.len() && before[i as int].0 == key@),
            decreases self.entries.len() - i,
        {
            let order = compare_bytes(self.entries[i].0.as_slice(), key.as_slice());
            assert(before[i as int].0 == self.entries[i as int].0@);
            match order {
                ByteOrder::Before => {
                    i += 1;
                },
                ByteOrder::Same => {
                    same = true;
                    break ;
                },
                ByteOrder::After => {
                    break ;
                },
            }
        }
        if same {
            self.entries.set(i, (key, value));
        } else {
            self.entries.insert(i, (key, value));
        }
        assert(self@ =~= dict_insert(before, key@, value@));
    }

    /// The value bound to `key`, if there is one.
    pub fn get(&self, key: &[u8]) -> (found: Option<&BencodeValue>)
        ensures
            match found {
                Some(value) => dict_get(self@, key@) == Some(value@),
                None => dict_get(self@, key@).is_none(),
            },
    {
        let mut i: usize = 0;
        while i < self.entries.len()
            invariant
                i <= self.entries.len(),
                key_index(self@, key@, i as int) == key_index(self@, key@, 0),
            decreases self.entries.len() - i,
        {
            let order = compare_bytes(self.entries[i].0.as_slice(), key);
            assert(self@[i as int].0 == self.entries[i as int].0@);
            if order == ByteOrder::Same {
                assert(self@[i as int].1 == self.entries[i as int].1@);
                return Some(&self.entries[i].1);
            }
            i += 1;
        }
        None
    }

    /// The key of the entry at `index`, in ascending key order.
    pub fn key_at(&self, index: usize) -> (key: &Vec<u8>)
        requires
            index < self@.len(),
        ensures
            key@ == self@[index as int].0,
    {
        &self.entries[index].0
    }

    /// The value of the entry at `index`, in ascending key order.
    pub fn value_at(&self, index: usize) -> (value: &BencodeValue)
        requires
            index < self@.len(),
        ensures
            value@ == self@[index as int].1,
    {
        &self.entries[index].1
    }
}

} // verus!
