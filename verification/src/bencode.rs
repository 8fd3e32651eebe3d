//! The bencode value tree: integers, byte strings, lists and dictionaries.

use crate::error::{Kind, SchemaError};
use crate::text::{bytes_eq, bytes_lt, is_bytes_lt};
use crate::text::{lemma_bytes_lt_irreflexive, lemma_bytes_lt_total, lemma_bytes_lt_transitive};
use vstd::prelude::*;

verus! {

/// Mathematical model of a bencode value. A dictionary is the sequence of its
/// entries in the order in which they are written.
pub ghost enum Bencode {
    Integer(i64),
    Bytes(Seq<u8>),
    List(Seq<Bencode>),
    Dict(Seq<(Seq<u8>, Bencode)>),
}

/// One key of a dictionary with the value stored under it.
#[derive(Debug, PartialEq, Eq)]
pub struct DictEntry {
    pub key: Vec<u8>,
    pub value: BencodeValue,
}

/// A bencode value. A dictionary holds its entries in the order in which they
/// are written; in a canonical value that order is ascending by key.
#[derive(Debug, PartialEq, Eq)]
pub enum BencodeValue {
    Integer(i64),
    Bytes(Vec<u8>),
    List(Vec<BencodeValue>),
    Dict(Vec<DictEntry>),
}

impl View for DictEntry {
    type V = (Seq<u8>, Bencode);

    open spec fn view(&self) -> (Seq<u8>, Bencode) {
        (self.key@, self.value@)
    }
}

impl View for BencodeValue {
    type V = Bencode;

    open spec fn view(&self) -> Bencode {
        model_of(*self)
    }
}

/// The model of a value: the same tree with sequences in place of vectors.
pub open spec fn model_of(value: BencodeValue) -> Bencode
    decreases value,
{
    match value {
        BencodeValue::Integer(i) => Bencode::Integer(i),
        BencodeValue::Bytes(b) => Bencode::Bytes(b@),
        BencodeValue::List(items) => Bencode::List(
            Seq::new(
                items.len() as nat,
                |i: int|
                    if 0 <= i < items.len() {
                        model_of(items[i])
                    } else {
                        Bencode::Integer(0)
                    },
            ),
        ),
        BencodeValue::Dict(entries) => Bencode::Dict(
            Seq::new(
                entries.len() as nat,
                |i: int|
                    if 0 <= i < entries.len() {
                        (entries[i].key@, model_of(entries[i].value))
                    } else {
                        (Seq::empty(), Bencode::Integer(0))
                    },
            ),
        ),
    }
}

/// The keys stand in strictly ascending byte order, so none occurs twice.
pub open spec fn keys_ascending(entries: Seq<(Seq<u8>, Bencode)>) -> bool {
    forall|i: int, j: int|
        0 <= i < j < entries.len() ==> bytes_lt(#[trigger] entries[i].0, #[trigger] entries[j].0)
}

/// The value stored under `key`: that of the first entry with this key.
pub open spec fn lookup(entries: Seq<(Seq<u8>, Bencode)>, key: Seq<u8>) -> Option<Bencode>
    decreases entries.len(),
{
    if entries.len() == 0 {
        None
    } else if entries[0].0 == key {
        Some(entries[0].1)
    } else {
        lookup(entries.drop_first(), key)
    }
}

impl Bencode {
    /// The shape of the value.
    pub open spec fn kind(self) -> Kind {
        match self {
            Bencode::Integer(_) => Kind::Integer,
            Bencode::Bytes(_) => Kind::Bytes,
            Bencode::List(_) => Kind::List,
            Bencode::Dict(_) => Kind::Dict,
        }
    }

    /// The value is canonical: in every dictionary inside it the keys stand in
    /// strictly ascending byte order.
    pub open spec fn canonical(self) -> bool
        decreases self,
    {
        match self {
            Bencode::Integer(_) => true,
            Bencode::Bytes(_) => true,
            Bencode::List(items) => forall|i: int|
                0 <= i < items.len() ==> (#[trigger] items[i]).canonical(),
            Bencode::Dict(entries) => {
                &&& keys_ascending(entries)
                &&& forall|i: int|
                    0 <= i < entries.len() ==> (#[trigger] entries[i]).1.canonical()
            },
        }
    }

    /// Lists and dictionaries are nested at most `limit` deep. An integer or
    /// a byte string has depth zero, an empty list or dictionary depth one.
    pub open spec fn within_depth(self, limit: nat) -> bool
        decreases self,
    {
        match self {
            Bencode::Integer(_) => true,
            Bencode::Bytes(_) => true,
            Bencode::List(items) => {
                &&& limit > 0
                &&& forall|i: int|
                    0 <= i < items.len() ==> (#[trigger] items[i]).within_depth((limit - 1) as nat)
            },
            Bencode::Dict(entries) => {
                &&& limit > 0
                &&& forall|i: int|
                    0 <= i < entries.len() ==> (#[trigger] entries[i]).1.within_depth(
                        (limit - 1) as nat,
                    )
            },
        }
    }
}

/// The models of the values of a list, in order.
pub open spec fn items_view(items: Seq<BencodeValue>) -> Seq<Bencode> {
    Seq::new(items.len(), |i: int| items[i]@)
}

/// The models of the entries of a dictionary, in order.
pub open spec fn entries_view(entries: Seq<DictEntry>) -> Seq<(Seq<u8>, Bencode)> {
    Seq::new(entries.len(), |i: int| entries[i]@)
}

/// The model of a list is the list of the models of its items.
pub proof fn lemma_list_view(items: Vec<BencodeValue>)
    ensures
        BencodeValue::List(items)@ == Bencode::List(items_view(items@)),
{
    assert(BencodeValue::List(items)@->List_0 =~= items_view(items@));
}

/// The model of a dictionary is the sequence of the models of its entries.
pub proof fn lemma_dict_view(entries: Vec<DictEntry>)
    ensures
        BencodeValue::Dict(entries)@ == Bencode::Dict(entries_view(entries@)),
{
    assert(BencodeValue::Dict(entries)@->Dict_0 =~= entries_view(entries@));
}

impl BencodeValue {
    /// The shape of the value.
    pub fn kind(&self) -> (kind: Kind)
        ensures
            kind == self@.kind(),
    {
        match self {
            BencodeValue::Integer(_) => Kind::Integer,
            BencodeValue::Bytes(_) => Kind::Bytes,
            BencodeValue::List(_) => Kind::List,
            BencodeValue::Dict(_) => Kind::Dict,
        }
    }

    /// The integer that the value holds; any other shape is a mismatch.
    pub fn expect_int(&self) -> (r: Result<i64, SchemaError>)
        ensures
            match r {
                Ok(i) => *self == BencodeValue::Integer(i),
                Err(e) => self@.kind() != Kind::Integer && e == (SchemaError::TypeMismatch {
                    expected: Kind::Integer,
                    found: self@.kind(),
                }),
            },
    {
        match self {
            BencodeValue::Integer(i) => Ok(*i),
            _ => Err(SchemaError::TypeMismatch { expected: Kind::Integer, found: self.kind() }),
        }
    }

    /// The bytes that the value holds; any other shape is a mismatch.
    pub fn expect_bytes(&self) -> (r: Result<&Vec<u8>, SchemaError>)
        ensures
            match r {
                Ok(bytes) => *self == BencodeValue::Bytes(*bytes),
                Err(e) => self@.kind() != Kind::Bytes && e == (SchemaError::TypeMismatch {
                    expected: Kind::Bytes,
                    found: self@.kind(),
                }),
            },
    {
        match self {
            BencodeValue::Bytes(bytes) => Ok(bytes),
            _ => Err(SchemaError::TypeMismatch { expected: Kind::Bytes, found: self.kind() }),
        }
    }

    /// The items of the list that the value is; any other shape is a mismatch.
    pub fn expect_list(&self) -> (r: Result<&Vec<BencodeValue>, SchemaError>)
        ensures
            match r {
                Ok(items) => *self == BencodeValue::List(*items) && self@ == Bencode::List(
                    items_view(items@),
                ),
                Err(e) => self@.kind() != Kind::List && e == (SchemaError::TypeMismatch {
                    expected: Kind::List,
                    found: self@.kind(),
                }),
            },
    {
        match self {
            BencodeValue::List(items) => {
                proof {
                    lemma_list_view(*items);
                }
                Ok(items)
            },
            _ => Err(SchemaError::TypeMismatch { expected: Kind::List, found: self.kind() }),
        }
    }

    /// The entries of the dictionary that the value is; any other shape is a
    /// mismatch.
    pub fn expect_dict(&self) -> (r: Result<&Vec<DictEntry>, SchemaError>)
        ensures
            match r {
                Ok(entries) => *self == BencodeValue::Dict(*entries) && self@ == Bencode::Dict(
                    entries_view(entries@),
                ),
                Err(e) => self@.kind() != Kind::Dict && e == (SchemaError::TypeMismatch {
                    expected: Kind::Dict,
                    found: self@.kind(),
                }),
            },
    {
        match self {
            BencodeValue::Dict(entries) => {
                proof {
                    lemma_dict_view(*entries);
                }
                Ok(entries)
            },
            _ => Err(SchemaError::TypeMismatch { expected: Kind::Dict, found: self.kind() }),
        }
    }
}

/// The value that a dictionary stores under `key`, if it has that key.
pub fn dict_get<'a>(entries: &'a Vec<DictEntry>, key: &[u8]) -> (found: Option<&'a BencodeValue>)
    ensures
        match found {
            Some(value) => lookup(entries_view(entries@), key@) == Some(value@),
            None => lookup(entries_view(entries@), key@) is None,
        },
{
    let ghost all = entries_view(entries@);
    assert(all.skip(0) =~= all);
    let mut i: usize = 0;
    while i < entries.len()
        invariant
            i <= entries.len(),
            all == entries_view(entries@),
            lookup(all, key@) == lookup(all.skip(i as int), key@),
            forall|j: int| 0 <= j < all.len() ==> all[j] == entries@[j]@,
        decreases entries.len() - i,
    {
        proof {
            assert(all.skip(i as int).drop_first() =~= all.skip(i + 1));
        }
        if bytes_eq(entries[i].key.as_slice(), key) {
            return Some(&entries[i].value);
        }
        i += 1;
    }
    None
}

impl Clone for BencodeValue {
    /// A copy of the whole tree.
    fn clone(&self) -> (copy: BencodeValue)
        ensures
            copy@ == self@,
        decreases self,
    {
        match self {
            BencodeValue::Integer(i) => BencodeValue::Integer(*i),
            BencodeValue::Bytes(bytes) => {
                let mut copy: Vec<u8> = Vec::new();
                copy.extend_from_slice(bytes.as_slice());
                assert(copy@ =~= bytes@);
                BencodeValue::Bytes(copy)
            },
            BencodeValue::List(items) => {
                let mut copy: Vec<BencodeValue> = Vec::new();
                let mut i: usize = 0;
                while i < items.len()
                    invariant
                        i <= items.len(),
                        *self == BencodeValue::List(*items),
                        copy@.len() == i,
                        forall|j: int| 0 <= j < i ==> (#[trigger] copy@[j])@ == items@[j]@,
                    decreases items.len() - i,
                {
                    assert(decreases_to!(*self => self->List_0));
                    assert(decreases_to!(*items => items[i as int]));
                    copy.push(items[i].clone());
                    i += 1;
                }
                proof {
                    lemma_list_view(*items);
                    lemma_list_view(copy);
                    assert(items_view(copy@) =~= items_view(items@));
                }
                BencodeValue::List(copy)
            },
            BencodeValue::Dict(entries) => {
                let mut copy: Vec<DictEntry> = Vec::new();
                let mut i: usize = 0;
                while i < entries.len()
                    invariant
                        i <= entries.len(),
                        *self == BencodeValue::Dict(*entries),
                        copy@.len() == i,
                        forall|j: int| 0 <= j < i ==> (#[trigger] copy@[j])@ == entries@[j]@,
                    decreases entries.len() - i,
                {
                    assert(decreases_to!(*self => self->Dict_0));
                    assert(decreases_to!(*entries => entries[i as int]));
                    assert(decreases_to!(entries[i as int] => entries[i as int].value));
                    let mut key: Vec<u8> = Vec::new();
                    key.extend_from_slice(entries[i].key.as_slice());
                    assert(key@ =~= entries@[i as int].key@);
                    copy.push(DictEntry { key, value: entries[i].value.clone() });
                    i += 1;
                }
                proof {
                    lemma_dict_view(*entries);
                    lemma_dict_view(copy);
                    assert(entries_view(copy@) =~= entries_view(entries@));
                }
                BencodeValue::Dict(copy)
            },
        }
    }
}

impl Clone for DictEntry {
    /// A copy of the key and of the whole value.
    fn clone(&self) -> (copy: DictEntry)
        ensures
            copy@ == self@,
    {
        let mut key: Vec<u8> = Vec::new();
        key.extend_from_slice(self.key.as_slice());
        assert(key@ =~= self.key@);
        DictEntry { key, value: self.value.clone() }
    }
}

/// A copy of a list of entries.
pub fn clone_entries(entries: &Vec<DictEntry>) -> (copy: Vec<DictEntry>)
    ensures
        entries_view(copy@) == entries_view(entries@),
{
    let mut copy: Vec<DictEntry> = Vec::new();
    let mut i: usize = 0;
    while i < entries.len()
        invariant
            i <= entries.len(),
            copy@.len() == i,
            forall|j: int| 0 <= j < i ==> (#[trigger] copy@[j])@ == entries@[j]@,
        decreases entries.len() - i,
    {
        copy.push(entries[i].clone());
        i += 1;
    }
    assert(entries_view(copy@) =~= entries_view(entries@));
    copy
}

/// The entries with `value` stored under `key`: in place of the entry that
/// has this key, or, where there is none, before the entries whose keys come
/// after `key`. Ascending entries stay ascending.
pub open spec fn inserted(entries: Seq<(Seq<u8>, Bencode)>, key: Seq<u8>, value: Bencode) -> Seq<
    (Seq<u8>, Bencode),
>
    decreases entries.len(),
{
    if entries.len() == 0 {
        seq![(key, value)]
    } else if bytes_lt(key, entries.last().0) {
        inserted(entries.drop_last(), key, value).push(entries.last())
    } else if entries.last().0 == key {
        entries.drop_last().push((key, value))
    } else {
        entries.push((key, value))
    }
}

/// Where the entries from place `p` on have keys after `key`, and the entry
/// before them has not, the new entry goes to place `p`, or takes the place
/// of the entry before it if that has the same key.
proof fn lemma_inserted_at(entries: Seq<(Seq<u8>, Bencode)>, key: Seq<u8>, value: Bencode, p: int)
    requires
        0 <= p <= entries.len(),
        forall|j: int| p <= j < entries.len() ==> bytes_lt(key, (#[trigger] entries[j]).0),
        p > 0 ==> !bytes_lt(key, entries[p - 1].0),
    ensures
        inserted(entries, key, value) == if p > 0 && entries[p - 1].0 == key {
            entries.update(p - 1, (key, value))
        } else {
            entries.insert(p, (key, value))
        },
    decreases entries.len(),
{
    if entries.len() > p {
        lemma_inserted_at(entries.drop_last(), key, value, p);
        if p > 0 && entries[p - 1].0 == key {
            assert(entries.drop_last().update(p - 1, (key, value)).push(entries.last())
                =~= entries.update(p - 1, (key, value)));
        } else {
            assert(entries.drop_last().insert(p, (key, value)).push(entries.last())
                =~= entries.insert(p, (key, value)));
        }
    } else if p > 0 {
        if entries[p - 1].0 == key {
            assert(entries.drop_last().push((key, value)) =~= entries.update(p - 1, (key, value)));
        } else {
            assert(entries.push((key, value)) =~= entries.insert(p, (key, value)));
        }
    } else {
        assert(seq![(key, value)] =~= entries.insert(p, (key, value)));
    }
}

/// Stores `value` under `key` in a dictionary whose entries are kept in
/// ascending order.
pub fn dict_insert(entries: &mut Vec<DictEntry>, key: Vec<u8>, value: BencodeValue)
    ensures
        entries_view(final(entries)@) == inserted(entries_view(old(entries)@), key@, value@),
{
    let ghost all = entries_view(entries@);
    let mut p: usize = entries.len();
    while p > 0
        invariant
            p <= entries.len(),
            entries@ == old(entries)@,
            all == entries_view(entries@),
            forall|j: int| p <= j < all.len() ==> bytes_lt(key@, (#[trigger] all[j]).0),
        ensures
            p <= entries.len(),
            entries@ == old(entries)@,
            forall|j: int| p <= j < all.len() ==> bytes_lt(key@, (#[trigger] all[j]).0),
            p > 0 ==> !bytes_lt(key@, all[p - 1].0),
        decreases p,
    {
        if !is_bytes_lt(key.as_slice(), entries[p - 1].key.as_slice()) {
            break;
        }
        p -= 1;
    }
    proof {
        lemma_inserted_at(all, key@, value@, p as int);
    }
    if p > 0 && bytes_eq(entries[p - 1].key.as_slice(), key.as_slice()) {
        entries.set(p - 1, DictEntry { key, value });
        assert(entries_view(entries@) =~= all.update(p - 1, (key@, value@)));
    } else {
        entries.insert(p, DictEntry { key, value });
        assert(entries_view(entries@) =~= all.insert(p as int, (key@, value@)));
    }
}

/// Storing a value under a key keeps ascending keys ascending.
pub proof fn lemma_inserted_ascending(
    entries: Seq<(Seq<u8>, Bencode)>,
    key: Seq<u8>,
    value: Bencode,
)
    requires
        keys_ascending(entries),
    ensures
        keys_ascending(inserted(entries, key, value)),
        forall|i: int|
            0 <= i < inserted(entries, key, value).len() ==> {
                let e = #[trigger] inserted(entries, key, value)[i];
                e == (key, value) || entries.contains(e)
            },
    decreases entries.len(),
{
    let result = inserted(entries, key, value);
    if entries.len() == 0 {
    } else if bytes_lt(key, entries.last().0) {
        let rest = entries.drop_last();
        assert(keys_ascending(rest)) by {
            assert forall|i: int, j: int| 0 <= i < j < rest.len() implies bytes_lt(
                #[trigger] rest[i].0,
                #[trigger] rest[j].0,
            ) by {
                assert(rest[i] == entries[i]);
                assert(rest[j] == entries[j]);
            }
        }
        lemma_inserted_ascending(rest, key, value);
        let inner = inserted(rest, key, value);
        assert forall|i: int, j: int| 0 <= i < j < result.len() implies bytes_lt(
            #[trigger] result[i].0,
            #[trigger] result[j].0,
        ) by {
            if j < inner.len() {
                assert(result[i] == inner[i]);
                assert(result[j] == inner[j]);
            } else {
                assert(result[i] == inner[i]);
                let e = inner[i];
                if e != (key, value) {
                    assert(rest.contains(e));
                    let k = choose|k: int| 0 <= k < rest.len() && rest[k] == e;
                    assert(entries[k] == e);
                    assert(bytes_lt(entries[k].0, entries[entries.len() - 1].0));
                }
            }
        }
        assert forall|i: int| 0 <= i < result.len() implies {
            let e = #[trigger] result[i];
            e == (key, value) || entries.contains(e)
        } by {
            if i < inner.len() {
                let e = inner[i];
                assert(result[i] == e);
                if e != (key, value) {
                    let k = choose|k: int| 0 <= k < rest.len() && rest[k] == e;
                    assert(entries[k] == e);
                }
            } else {
                assert(result[i] == entries[entries.len() - 1]);
            }
        }
    } else if entries.last().0 == key {
        assert forall|i: int, j: int| 0 <= i < j < result.len() implies bytes_lt(
            #[trigger] result[i].0,
            #[trigger] result[j].0,
        ) by {
            assert(result[i] == entries[i]);
            assert(result[j].0 == entries[j].0);
        }
        assert forall|i: int| 0 <= i < result.len() implies {
            let e = #[trigger] result[i];
            e == (key, value) || entries.contains(e)
        } by {
            if i < result.len() - 1 {
                assert(result[i] == entries[i]);
            }
        }
    } else {
        lemma_bytes_lt_total(key, entries.last().0);
        assert forall|i: int, j: int| 0 <= i < j < result.len() implies bytes_lt(
            #[trigger] result[i].0,
            #[trigger] result[j].0,
        ) by {
            if j < entries.len() {
                assert(result[i] == entries[i]);
                assert(result[j] == entries[j]);
            } else {
                assert(result[i] == entries[i]);
                if i < entries.len() - 1 {
                    assert(bytes_lt(entries[i].0, entries[entries.len() - 1].0));
                    lemma_bytes_lt_transitive(entries[i].0, entries.last().0, key);
                }
            }
        }
        assert forall|i: int| 0 <= i < result.len() implies {
            let e = #[trigger] result[i];
            e == (key, value) || entries.contains(e)
        } by {
            if i < entries.len() {
                assert(result[i] == entries[i]);
            }
        }
    }
}

/// What is found under a key is the value of an entry with that key, and
/// nothing is found only where no entry has the key.
pub proof fn lemma_lookup_found(entries: Seq<(Seq<u8>, Bencode)>, key: Seq<u8>)
    ensures
        match lookup(entries, key) {
            Some(value) => exists|i: int|
                0 <= i < entries.len() && #[trigger] entries[i] == (key, value),
            None => forall|i: int| 0 <= i < entries.len() ==> (#[trigger] entries[i]).0 != key,
        },
    decreases entries.len(),
{
    if entries.len() > 0 {
        if entries[0].0 == key {
            assert(entries[0] == (key, entries[0].1));
        } else {
            let rest = entries.drop_first();
            lemma_lookup_found(rest, key);
            match lookup(rest, key) {
                Some(value) => {
                    let i = choose|i: int| 0 <= i < rest.len() && #[trigger] rest[i] == (key, value);
                    assert(entries[i + 1] == (key, value));
                },
                None => {
                    assert forall|i: int| 0 <= i < entries.len() implies (#[trigger] entries[i]).0
                        != key by {
                        if i > 0 {
                            assert(rest[i - 1] == entries[i]);
                        }
                    }
                },
            }
        }
    }
}

/// Where the keys ascend, each entry is what is found under its key.
pub proof fn lemma_lookup_entry(entries: Seq<(Seq<u8>, Bencode)>, i: int)
    requires
        keys_ascending(entries),
        0 <= i < entries.len(),
    ensures
        lookup(entries, entries[i].0) == Some(entries[i].1),
    decreases entries.len(),
{
    if i == 0 {
    } else {
        assert(bytes_lt(entries[0].0, entries[i].0));
        lemma_bytes_lt_irreflexive(entries[0].0);
        let rest = entries.drop_first();
        assert forall|a: int, b: int| 0 <= a < b < rest.len() implies bytes_lt(
            #[trigger] rest[a].0,
            #[trigger] rest[b].0,
        ) by {
            assert(rest[a] == entries[a + 1]);
            assert(rest[b] == entries[b + 1]);
        }
        assert(rest[i - 1] == entries[i]);
        lemma_lookup_entry(rest, i - 1);
    }
}

/// After a value is stored under a key, it is what is found under that key,
/// and what is found under any other key is as before.
pub proof fn lemma_lookup_inserted(
    entries: Seq<(Seq<u8>, Bencode)>,
    key: Seq<u8>,
    value: Bencode,
    other: Seq<u8>,
)
    requires
        keys_ascending(entries),
    ensures
        lookup(inserted(entries, key, value), other) == if other == key {
            Some(value)
        } else {
            lookup(entries, other)
        },
{
    let result = inserted(entries, key, value);
    lemma_inserted_ascending(entries, key, value);
    lemma_inserted_members(entries, key, value);
    if other == key {
        let j = choose|j: int| 0 <= j < result.len() && result[j] == (key, value);
        lemma_lookup_entry(result, j);
    } else {
        lemma_lookup_found(entries, other);
        match lookup(entries, other) {
            Some(found) => {
                let i = choose|i: int|
                    0 <= i < entries.len() && #[trigger] entries[i] == (other, found);
                assert(entries.contains(entries[i]));
                assert(result.contains((other, found)));
                let j = choose|j: int| 0 <= j < result.len() && result[j] == (other, found);
                lemma_lookup_entry(result, j);
            },
            None => {
                lemma_lookup_found(result, other);
                if lookup(result, other) is Some {
                    let w = lookup(result, other)->Some_0;
                    let j = choose|j: int|
                        0 <= j < result.len() && #[trigger] result[j] == (other, w);
                    assert(result[j] == (key, value) || entries.contains(result[j]));
                    let i = choose|i: int| 0 <= i < entries.len() && entries[i] == result[j];
                    assert(entries[i].0 == other);
                }
            },
        }
    }
}

/// After a value is stored under a key, the entries are the new one and
/// those that were there under other keys.
pub proof fn lemma_inserted_members(
    entries: Seq<(Seq<u8>, Bencode)>,
    key: Seq<u8>,
    value: Bencode,
)
    ensures
        inserted(entries, key, value).contains((key, value)),
        forall|e: (Seq<u8>, Bencode)|
            entries.contains(e) && e.0 != key ==> #[trigger] inserted(
                entries,
                key,
                value,
            ).contains(e),
    decreases entries.len(),
{
    let result = inserted(entries, key, value);
    if entries.len() == 0 {
        assert(result[0] == (key, value));
    } else if bytes_lt(key, entries.last().0) {
        let rest = entries.drop_last();
        let inner = inserted(rest, key, value);
        lemma_inserted_members(rest, key, value);
        let j = choose|j: int| 0 <= j < inner.len() && inner[j] == (key, value);
        assert(result[j] == (key, value));
        assert forall|e: (Seq<u8>, Bencode)| entries.contains(e) && e.0 != key implies result.contains(
            e,
        ) by {
            let i = choose|i: int| 0 <= i < entries.len() && entries[i] == e;
            if i < rest.len() {
                assert(rest[i] == e);
                assert(rest.contains(e));
                assert(inner.contains(e));
                let k = choose|k: int| 0 <= k < inner.len() && inner[k] == e;
                assert(result[k] == e);
            } else {
                assert(result[result.len() - 1] == e);
            }
        }
    } else if entries.last().0 == key {
        assert(result[result.len() - 1] == (key, value));
        assert forall|e: (Seq<u8>, Bencode)| entries.contains(e) && e.0 != key implies result.contains(
            e,
        ) by {
            let i = choose|i: int| 0 <= i < entries.len() && entries[i] == e;
            assert(result[i] == e);
        }
    } else {
        assert(result[result.len() - 1] == (key, value));
        assert forall|e: (Seq<u8>, Bencode)| entries.contains(e) && e.0 != key implies result.contains(
            e,
        ) by {
            let i = choose|i: int| 0 <= i < entries.len() && entries[i] == e;
            assert(result[i] == e);
        }
    }
}

} // verus!
