//! Narrowing a value tree to typed fields: text, integers in a range, lists
//! of text, and the keys of a dictionary that a schema names.

use crate::bencode::{dict_get, entries_view, items_view, lookup, Bencode, BencodeValue, DictEntry};
use crate::bencode::{inserted, keys_ascending};
use crate::error::{Field, Kind, SchemaError};
use crate::text::text_from_utf8;
use vstd::prelude::*;
use vstd::utf8::{decode_utf8, valid_utf8};

verus! {

/// All the results, in order, where none is an error; else the first error.
pub open spec fn collect<T>(results: Seq<Result<T, SchemaError>>) -> Result<Seq<T>, SchemaError>
    decreases results.len(),
{
    if results.len() == 0 {
        Ok(Seq::empty())
    } else {
        match collect(results.drop_last()) {
            Err(e) => Err(e),
            Ok(done) => match results.last() {
                Err(e) => Err(e),
                Ok(item) => Ok(done.push(item)),
            },
        }
    }
}

/// Collecting one result more: the results so far, then the new one.
pub proof fn lemma_collect_step<T>(results: Seq<Result<T, SchemaError>>, n: int)
    requires
        0 <= n < results.len(),
    ensures
        collect(results.take(n + 1)) == match collect(results.take(n)) {
            Err(e) => Err(e),
            Ok(done) => match results[n] {
                Err(e) => Err(e),
                Ok(item) => Ok(done.push(item)),
            },
        },
{
    assert(results.take(n + 1).drop_last() =~= results.take(n));
}

/// The text that a value holds: a byte string that is valid UTF-8.
pub open spec fn text_of(value: Bencode, field: Field) -> Result<Seq<char>, SchemaError> {
    match value {
        Bencode::Bytes(bytes) => if valid_utf8(bytes) {
            Ok(decode_utf8(bytes))
        } else {
            Err(SchemaError::InvalidUtf8(field))
        },
        _ => Err(SchemaError::TypeMismatch { expected: Kind::Bytes, found: value.kind() }),
    }
}

/// The texts that a list of byte strings holds, in order.
pub open spec fn texts_of(value: Bencode, field: Field) -> Result<Seq<Seq<char>>, SchemaError> {
    match value {
        Bencode::List(items) => collect(Seq::new(items.len(), |i: int| text_of(items[i], field))),
        _ => Err(SchemaError::TypeMismatch { expected: Kind::List, found: value.kind() }),
    }
}

/// The characters of each text of a list.
pub open spec fn texts_view(texts: Seq<String>) -> Seq<Seq<char>> {
    Seq::new(texts.len(), |i: int| texts[i]@)
}

/// The value under the key of `field`, which must be there.
pub open spec fn required(entries: Seq<(Seq<u8>, Bencode)>, field: Field) -> Result<
    Bencode,
    SchemaError,
> {
    match lookup(entries, field.key()) {
        Some(value) => Ok(value),
        None => Err(SchemaError::MissingField(field)),
    }
}

/// Reads a value as text.
pub fn expect_text(value: &BencodeValue, field: Field) -> (r: Result<String, SchemaError>)
    ensures
        match r {
            Ok(text) => text_of(value@, field) == Ok::<Seq<char>, SchemaError>(text@),
            Err(e) => text_of(value@, field) == Err::<Seq<char>, SchemaError>(e),
        },
{
    let bytes = value.expect_bytes()?;
    match text_from_utf8(bytes.as_slice()) {
        Some(text) => Ok(text),
        None => Err(SchemaError::InvalidUtf8(field)),
    }
}

/// Reads a value as a list of texts.
pub fn expect_texts(value: &BencodeValue, field: Field) -> (r: Result<Vec<String>, SchemaError>)
    ensures
        match r {
            Ok(texts) => texts_of(value@, field) == Ok::<Seq<Seq<char>>, SchemaError>(
                texts_view(texts@),
            ),
            Err(e) => texts_of(value@, field) == Err::<Seq<Seq<char>>, SchemaError>(e),
        },
{
    let items = value.expect_list()?;
    let ghost models = items_view(items@);
    let ghost results = Seq::new(models.len(), |i: int| text_of(models[i], field));
    let mut texts: Vec<String> = Vec::new();
    let mut i: usize = 0;
    assert(results.take(0) =~= Seq::empty());
    assert(texts_view(texts@) =~= Seq::empty());
    while i < items.len()
        invariant
            i <= items.len(),
            models == items_view(items@),
            results == Seq::new(models.len(), |i: int| text_of(models[i], field)),
            collect(results.take(i as int)) == Ok::<Seq<Seq<char>>, SchemaError>(
                texts_view(texts@),
            ),
            value@ == Bencode::List(models),
        decreases items.len() - i,
    {
        proof {
            lemma_collect_step(results, i as int);
        }
        match expect_text(&items[i], field) {
            Ok(text) => {
                let ghost before = texts_view(texts@);
                texts.push(text);
                assert(texts_view(texts@) =~= before.push(text@));
            },
            Err(e) => {
                proof {
                    lemma_collect_error(results, i as int + 1);
                }
                return Err(e);
            },
        }
        i += 1;
    }
    assert(results.take(i as int) =~= results);
    Ok(texts)
}

/// An error among the first `n` results is the outcome of collecting them all.
pub proof fn lemma_collect_error<T>(results: Seq<Result<T, SchemaError>>, n: int)
    requires
        0 <= n <= results.len(),
        collect(results.take(n)) is Err,
    ensures
        collect(results) == Err::<Seq<T>, SchemaError>(collect(results.take(n))->Err_0),
    decreases results.len() - n,
{
    if n == results.len() {
        assert(results.take(n) =~= results);
    } else {
        lemma_collect_step(results, n);
        lemma_collect_error(results, n + 1);
    }
}

/// Looks up the key of `field` in a dictionary.
pub fn find<'a>(entries: &'a Vec<DictEntry>, field: Field) -> (found: Option<&'a BencodeValue>)
    ensures
        match found {
            Some(value) => lookup(entries_view(entries@), field.key()) == Some(value@),
            None => lookup(entries_view(entries@), field.key()) is None,
        },
{
    dict_get(entries, field.key_bytes())
}

/// Looks up the key of `field`, which must be there.
pub fn find_required<'a>(entries: &'a Vec<DictEntry>, field: Field) -> (r: Result<
    &'a BencodeValue,
    SchemaError,
>)
    ensures
        match r {
            Ok(value) => required(entries_view(entries@), field) == Ok::<Bencode, SchemaError>(
                value@,
            ),
            Err(e) => required(entries_view(entries@), field) == Err::<Bencode, SchemaError>(e),
        },
{
    match find(entries, field) {
        Some(value) => Ok(value),
        None => Err(SchemaError::MissingField(field)),
    }
}

/// True when `key` is the key of one of the fields.
pub open spec fn names(fields: Seq<Field>, key: Seq<u8>) -> bool {
    exists|i: int| 0 <= i < fields.len() && (#[trigger] fields[i]).key() == key
}

/// The entries whose keys none of the fields names, in their order.
pub open spec fn unnamed(entries: Seq<(Seq<u8>, Bencode)>, fields: Seq<Field>) -> Seq<
    (Seq<u8>, Bencode),
>
    decreases entries.len(),
{
    if entries.len() == 0 {
        Seq::empty()
    } else if names(fields, entries.last().0) {
        unnamed(entries.drop_last(), fields)
    } else {
        unnamed(entries.drop_last(), fields).push(entries.last())
    }
}

/// True when the key is that of one of the fields.
pub fn is_named(fields: &Vec<Field>, key: &[u8]) -> (named: bool)
    ensures
        named == names(fields@, key@),
{
    let mut i: usize = 0;
    while i < fields.len()
        invariant
            i <= fields.len(),
            forall|j: int| 0 <= j < i ==> (#[trigger] fields@[j]).key() != key@,
        decreases fields.len() - i,
    {
        if crate::text::bytes_eq(fields[i].key_bytes(), key) {
            return true;
        }
        i += 1;
    }
    false
}

/// Copies the entries that the schema does not name: they are kept as they
/// are, in their order.
pub fn extra_entries(entries: &Vec<DictEntry>, fields: &Vec<Field>) -> (extra: Vec<DictEntry>)
    ensures
        entries_view(extra@) == unnamed(entries_view(entries@), fields@),
{
    let ghost all = entries_view(entries@);
    let mut extra: Vec<DictEntry> = Vec::new();
    let mut i: usize = 0;
    assert(all.take(0) =~= Seq::empty());
    assert(entries_view(extra@) =~= Seq::empty());
    while i < entries.len()
        invariant
            i <= entries.len(),
            all == entries_view(entries@),
            entries_view(extra@) == unnamed(all.take(i as int), fields@),
        decreases entries.len() - i,
    {
        proof {
            assert(all.take(i + 1).drop_last() =~= all.take(i as int));
            assert(all.take(i + 1).last() == entries@[i as int]@);
        }
        if !is_named(fields, entries[i].key.as_slice()) {
            let ghost before = entries_view(extra@);
            let entry = entries[i].clone();
            extra.push(entry);
            assert(entries_view(extra@) =~= before.push(entry@));
        }
        i += 1;
    }
    assert(all.take(i as int) =~= all);
    extra
}

/// The integer under the key of `field`, if the key is there.
pub open spec fn optional_int(entries: Seq<(Seq<u8>, Bencode)>, field: Field) -> Result<
    Option<i64>,
    SchemaError,
> {
    match lookup(entries, field.key()) {
        None => Ok(None),
        Some(Bencode::Integer(i)) => Ok(Some(i)),
        Some(other) => Err(
            SchemaError::TypeMismatch { expected: Kind::Integer, found: other.kind() },
        ),
    }
}

/// The text under the key of `field`, if the key is there.
pub open spec fn optional_text(entries: Seq<(Seq<u8>, Bencode)>, field: Field) -> Result<
    Option<Seq<char>>,
    SchemaError,
> {
    match lookup(entries, field.key()) {
        None => Ok(None),
        Some(value) => match text_of(value, field) {
            Ok(text) => Ok(Some(text)),
            Err(e) => Err(e),
        },
    }
}

/// The texts listed under the key of `field`; none where the key is absent.
pub open spec fn optional_texts(entries: Seq<(Seq<u8>, Bencode)>, field: Field) -> Result<
    Seq<Seq<char>>,
    SchemaError,
> {
    match lookup(entries, field.key()) {
        None => Ok(Seq::empty()),
        Some(value) => texts_of(value, field),
    }
}

/// The text under the key of `field`, which must be there.
pub open spec fn required_text(entries: Seq<(Seq<u8>, Bencode)>, field: Field) -> Result<
    Seq<char>,
    SchemaError,
> {
    match lookup(entries, field.key()) {
        None => Err(SchemaError::MissingField(field)),
        Some(value) => text_of(value, field),
    }
}

/// The integer under the key of `field`, which must be there.
pub open spec fn required_int(entries: Seq<(Seq<u8>, Bencode)>, field: Field) -> Result<
    i64,
    SchemaError,
> {
    match lookup(entries, field.key()) {
        None => Err(SchemaError::MissingField(field)),
        Some(Bencode::Integer(i)) => Ok(i),
        Some(other) => Err(
            SchemaError::TypeMismatch { expected: Kind::Integer, found: other.kind() },
        ),
    }
}

/// Reads the integer under the key of `field`, if the key is there.
pub fn find_int(entries: &Vec<DictEntry>, field: Field) -> (r: Result<Option<i64>, SchemaError>)
    ensures
        r == optional_int(entries_view(entries@), field),
{
    match find(entries, field) {
        None => Ok(None),
        Some(value) => {
            let i = value.expect_int()?;
            Ok(Some(i))
        },
    }
}

/// Reads the integer under the key of `field`, which must be there.
pub fn find_required_int(entries: &Vec<DictEntry>, field: Field) -> (r: Result<i64, SchemaError>)
    ensures
        r == required_int(entries_view(entries@), field),
{
    match find(entries, field) {
        None => Err(SchemaError::MissingField(field)),
        Some(value) => value.expect_int(),
    }
}

/// Reads the text under the key of `field`, if the key is there.
pub fn find_text(entries: &Vec<DictEntry>, field: Field) -> (r: Result<
    Option<String>,
    SchemaError,
>)
    ensures
        match r {
            Ok(text) => optional_text(entries_view(entries@), field) == Ok::<
                Option<Seq<char>>,
                SchemaError,
            >(crate::torrent::text_view(text)),
            Err(e) => optional_text(entries_view(entries@), field) == Err::<
                Option<Seq<char>>,
                SchemaError,
            >(e),
        },
{
    match find(entries, field) {
        None => Ok(None),
        Some(value) => {
            let text = expect_text(value, field)?;
            Ok(Some(text))
        },
    }
}

/// Reads the text under the key of `field`, which must be there.
pub fn find_required_text(entries: &Vec<DictEntry>, field: Field) -> (r: Result<
    String,
    SchemaError,
>)
    ensures
        match r {
            Ok(text) => required_text(entries_view(entries@), field) == Ok::<
                Seq<char>,
                SchemaError,
            >(text@),
            Err(e) => required_text(entries_view(entries@), field) == Err::<
                Seq<char>,
                SchemaError,
            >(e),
        },
{
    match find(entries, field) {
        None => Err(SchemaError::MissingField(field)),
        Some(value) => expect_text(value, field),
    }
}

/// Reads the texts listed under the key of `field`; none where the key is
/// absent.
pub fn find_texts(entries: &Vec<DictEntry>, field: Field) -> (r: Result<Vec<String>, SchemaError>)
    ensures
        match r {
            Ok(texts) => optional_texts(entries_view(entries@), field) == Ok::<
                Seq<Seq<char>>,
                SchemaError,
            >(texts_view(texts@)),
            Err(e) => optional_texts(entries_view(entries@), field) == Err::<
                Seq<Seq<char>>,
                SchemaError,
            >(e),
        },
{
    match find(entries, field) {
        None => {
            let texts: Vec<String> = Vec::new();
            assert(texts_view(texts@) =~= Seq::empty());
            Ok(texts)
        },
        Some(value) => expect_texts(value, field),
    }
}

/// Where every result is a value, collecting them gives all the values.
pub proof fn lemma_collect_all<T>(results: Seq<Result<T, SchemaError>>, values: Seq<T>)
    requires
        results.len() == values.len(),
        forall|i: int| 0 <= i < results.len() ==> #[trigger] results[i] == Ok::<T, SchemaError>(
            values[i],
        ),
    ensures
        collect(results) == Ok::<Seq<T>, SchemaError>(values),
    decreases results.len(),
{
    if results.len() == 0 {
        assert(values =~= Seq::empty());
    } else {
        lemma_collect_all(results.drop_last(), values.drop_last());
        assert(values.drop_last().push(values.last()) =~= values);
    }
}

/// The entries that a schema does not name are kept: every entry of the
/// dictionary whose key the schema does not name stands among them, as it
/// is, and nothing else does.
pub proof fn lemma_unnamed_members(entries: Seq<(Seq<u8>, Bencode)>, fields: Seq<Field>)
    ensures
        forall|e: (Seq<u8>, Bencode)|
            #[trigger] unnamed(entries, fields).contains(e) <==> entries.contains(e) && !names(
                fields,
                e.0,
            ),
    decreases entries.len(),
{
    let kept = unnamed(entries, fields);
    if entries.len() == 0 {
        assert forall|e: (Seq<u8>, Bencode)| #[trigger]
            kept.contains(e) <==> entries.contains(e) && !names(fields, e.0) by {}
    } else {
        let rest = entries.drop_last();
        let inner = unnamed(rest, fields);
        lemma_unnamed_members(rest, fields);
        assert forall|e: (Seq<u8>, Bencode)| #[trigger]
            kept.contains(e) <==> entries.contains(e) && !names(fields, e.0) by {
            if kept.contains(e) {
                let j = choose|j: int| 0 <= j < kept.len() && kept[j] == e;
                if j < inner.len() {
                    assert(inner[j] == e);
                    assert(inner.contains(e));
                    let i = choose|i: int| 0 <= i < rest.len() && rest[i] == e;
                    assert(entries[i] == e);
                } else {
                    assert(entries[entries.len() - 1] == e);
                }
            }
            if entries.contains(e) && !names(fields, e.0) {
                let i = choose|i: int| 0 <= i < entries.len() && entries[i] == e;
                if i < rest.len() {
                    assert(rest[i] == e);
                    assert(rest.contains(e));
                    assert(inner.contains(e));
                    let j = choose|j: int| 0 <= j < inner.len() && inner[j] == e;
                    assert(kept[j] == e);
                } else {
                    assert(kept[kept.len() - 1] == e);
                }
            }
        }
    }
}

/// Where the schema names none of the keys, all entries are kept.
pub proof fn lemma_unnamed_all(entries: Seq<(Seq<u8>, Bencode)>, fields: Seq<Field>)
    requires
        forall|i: int| 0 <= i < entries.len() ==> !names(fields, (#[trigger] entries[i]).0),
    ensures
        unnamed(entries, fields) == entries,
    decreases entries.len(),
{
    if entries.len() > 0 {
        let rest = entries.drop_last();
        assert forall|i: int| 0 <= i < rest.len() implies !names(fields, (#[trigger] rest[i]).0) by {
            assert(rest[i] == entries[i]);
        }
        lemma_unnamed_all(rest, fields);
        assert(entries[entries.len() - 1] == entries.last());
        assert(rest.push(entries.last()) =~= entries);
    }
}

/// Storing a value under a key that the schema names does not change the
/// entries that the schema does not name.
pub proof fn lemma_unnamed_inserted(
    entries: Seq<(Seq<u8>, Bencode)>,
    fields: Seq<Field>,
    key: Seq<u8>,
    value: Bencode,
)
    requires
        names(fields, key),
    ensures
        unnamed(inserted(entries, key, value), fields) == unnamed(entries, fields),
    decreases entries.len(),
{
    let result = inserted(entries, key, value);
    if entries.len() == 0 {
        assert(result.drop_last() =~= entries);
    } else if crate::text::bytes_lt(key, entries.last().0) {
        lemma_unnamed_inserted(entries.drop_last(), fields, key, value);
        assert(result.drop_last() =~= inserted(entries.drop_last(), key, value));
    } else if entries.last().0 == key {
        assert(result.drop_last() =~= entries.drop_last());
    } else {
        assert(result.drop_last() =~= entries);
    }
}

/// Where collecting gives values, every result was a value, and the values
/// are those of the results, in order.
pub proof fn lemma_collect_values<T>(results: Seq<Result<T, SchemaError>>)
    requires
        collect(results) is Ok,
    ensures
        collect(results)->Ok_0.len() == results.len(),
        forall|i: int|
            0 <= i < results.len() ==> #[trigger] results[i] == Ok::<T, SchemaError>(
                collect(results)->Ok_0[i],
            ),
    decreases results.len(),
{
    if results.len() > 0 {
        lemma_collect_values(results.drop_last());
        let done = collect(results.drop_last())->Ok_0;
        assert forall|i: int| 0 <= i < results.len() implies #[trigger] results[i] == Ok::<
            T,
            SchemaError,
        >(collect(results)->Ok_0[i]) by {
            if i < results.len() - 1 {
                assert(results.drop_last()[i] == results[i]);
            }
        }
    }
}

/// The entries that a schema does not name keep their order: where the keys
/// of the dictionary ascend, so do theirs.
pub proof fn lemma_unnamed_ascending(entries: Seq<(Seq<u8>, Bencode)>, fields: Seq<Field>)
    requires
        keys_ascending(entries),
    ensures
        keys_ascending(unnamed(entries, fields)),
    decreases entries.len(),
{
    if entries.len() > 0 {
        let rest = entries.drop_last();
        let inner = unnamed(rest, fields);
        let kept = unnamed(entries, fields);
        assert forall|i: int, j: int| 0 <= i < j < rest.len() implies crate::text::bytes_lt(
            #[trigger] rest[i].0,
            #[trigger] rest[j].0,
        ) by {
            assert(rest[i] == entries[i]);
            assert(rest[j] == entries[j]);
        }
        lemma_unnamed_ascending(rest, fields);
        lemma_unnamed_members(rest, fields);
        assert forall|i: int, j: int| 0 <= i < j < kept.len() implies crate::text::bytes_lt(
            #[trigger] kept[i].0,
            #[trigger] kept[j].0,
        ) by {
            if j < inner.len() {
                assert(kept[i] == inner[i]);
                assert(kept[j] == inner[j]);
            } else {
                assert(kept[i] == inner[i]);
                assert(inner.contains(inner[i]));
                assert(rest.contains(inner[i]));
                let k = choose|k: int| 0 <= k < rest.len() && rest[k] == inner[i];
                assert(entries[k] == inner[i]);
                assert(kept[j] == entries[entries.len() - 1]);
            }
        }
    }
}

} // verus!
