//! The file list of a torrent with several files, as a value tree.

use crate::bencode::{entries_view, items_view, lookup, Bencode, BencodeValue, DictEntry};
use crate::bencode::{lemma_dict_view, lemma_list_view};
use crate::error::{Field, Kind, SchemaError};
use crate::schema::{collect, lemma_collect_error, lemma_collect_step};
use crate::schema::{expect_texts, find, texts_of, texts_view};
use crate::text::text_bytes;
use crate::torrent::{files_view, TorrentFile, TorrentFileView};
use vstd::prelude::*;
use vstd::utf8::encode_utf8;

verus! {

/// The file that a value describes. The value must be a dictionary with an
/// integer under `length`, which must not be negative, and a list of texts
/// under `path`. Other keys are passed over. The checks are made in this
/// order: the dictionary, the presence of `length`, that of `path`, the
/// length, the path.
pub open spec fn file_of(value: Bencode) -> Result<TorrentFileView, SchemaError> {
    match value {
        Bencode::Dict(entries) => match lookup(entries, Field::Length.key()) {
            None => Err(SchemaError::MissingField(Field::Length)),
            Some(length) => match lookup(entries, Field::Path.key()) {
                None => Err(SchemaError::MissingField(Field::Path)),
                Some(path) => match length {
                    Bencode::Integer(n) => if n < 0 {
                        Err(SchemaError::OutOfRange(Field::Length))
                    } else {
                        match texts_of(path, Field::Path) {
                            Ok(path) => Ok(TorrentFileView { path, length: n }),
                            Err(e) => Err(e),
                        }
                    },
                    _ => Err(
                        SchemaError::TypeMismatch { expected: Kind::Integer, found: length.kind() },
                    ),
                },
            },
        },
        _ => Err(SchemaError::TypeMismatch { expected: Kind::Dict, found: value.kind() }),
    }
}

/// The files that a value lists: the value must be a list, and each of its
/// items a file. The first item that is no file decides the error.
pub open spec fn files_of(value: Bencode) -> Result<Seq<TorrentFileView>, SchemaError> {
    match value {
        Bencode::List(items) => collect(Seq::new(items.len(), |i: int| file_of(items[i]))),
        _ => Err(SchemaError::TypeMismatch { expected: Kind::List, found: value.kind() }),
    }
}

/// Reads one file of the list.
pub fn deserialize_file(value: &BencodeValue) -> (r: Result<TorrentFile, SchemaError>)
    ensures
        match r {
            Ok(file) => file_of(value@) == Ok::<TorrentFileView, SchemaError>(file@),
            Err(e) => file_of(value@) == Err::<TorrentFileView, SchemaError>(e),
        },
{
    let entries = value.expect_dict()?;
    let length = match find(entries, Field::Length) {
        Some(length) => length,
        None => return Err(SchemaError::MissingField(Field::Length)),
    };
    let path = match find(entries, Field::Path) {
        Some(path) => path,
        None => return Err(SchemaError::MissingField(Field::Path)),
    };
    let length = length.expect_int()?;
    if length < 0 {
        return Err(SchemaError::OutOfRange(Field::Length));
    }
    let path = expect_texts(path, Field::Path)?;
    Ok(TorrentFile { path, length })
}

/// Reads the file list of a torrent from the value under `files`.
pub fn deserialize(value: &BencodeValue) -> (r: Result<Vec<TorrentFile>, SchemaError>)
    ensures
        match r {
            Ok(files) => files_of(value@) == Ok::<Seq<TorrentFileView>, SchemaError>(
                files_view(files@),
            ),
            Err(e) => files_of(value@) == Err::<Seq<TorrentFileView>, SchemaError>(e),
        },
{
    let items = value.expect_list()?;
    let ghost models = items_view(items@);
    let ghost results = Seq::new(models.len(), |i: int| file_of(models[i]));
    let mut files: Vec<TorrentFile> = Vec::new();
    let mut i: usize = 0;
    assert(results.take(0) =~= Seq::empty());
    assert(files_view(files@) =~= Seq::empty());
    while i < items.len()
        invariant
            i <= items.len(),
            models == items_view(items@),
            results == Seq::new(models.len(), |i: int| file_of(models[i])),
            collect(results.take(i as int)) == Ok::<Seq<TorrentFileView>, SchemaError>(
                files_view(files@),
            ),
            value@ == Bencode::List(models),
        decreases items.len() - i,
    {
        proof {
            lemma_collect_step(results, i as int);
        }
        match deserialize_file(&items[i]) {
            Ok(file) => {
                let ghost before = files_view(files@);
                files.push(file);
                assert(files_view(files@) =~= before.push(file@));
            },
            Err(e) => {
                proof {
                    lemma_collect_error(results, i as int + 1);
                }
                return Err(e);
            },
        }
        i += 1;
    }
    assert(results.take(i as int) =~= results);
    Ok(files)
}

/// A list of texts as a value: each text as the byte string of its UTF-8
/// bytes.
pub open spec fn texts_tree(texts: Seq<Seq<char>>) -> Bencode {
    Bencode::List(Seq::new(texts.len(), |i: int| Bencode::Bytes(encode_utf8(texts[i]))))
}

/// A file as a value: a dictionary with the length under `length` and the
/// segments of the path under `path`.
pub open spec fn file_tree(file: TorrentFileView) -> Bencode {
    Bencode::Dict(
        seq![
            (Field::Length.key(), Bencode::Integer(file.length)),
            (Field::Path.key(), texts_tree(file.path)),
        ],
    )
}

/// A file list as a value: the list of its files.
pub open spec fn files_tree(files: Seq<TorrentFileView>) -> Bencode {
    Bencode::List(Seq::new(files.len(), |i: int| file_tree(files[i])))
}

/// Writes a list of texts as a value.
pub fn serialize_texts(texts: &Vec<String>) -> (value: BencodeValue)
    ensures
        value@ == texts_tree(texts_view(texts@)),
{
    let mut items: Vec<BencodeValue> = Vec::new();
    let mut i: usize = 0;
    while i < texts.len()
        invariant
            i <= texts.len(),
            items@.len() == i,
            forall|j: int|
                0 <= j < i ==> (#[trigger] items@[j])@ == Bencode::Bytes(encode_utf8(texts@[j]@)),
        decreases texts.len() - i,
    {
        items.push(BencodeValue::Bytes(text_bytes(&texts[i])));
        i += 1;
    }
    proof {
        lemma_list_view(items);
        assert(items_view(items@) =~= texts_tree(texts_view(texts@))->List_0);
    }
    BencodeValue::List(items)
}

/// Writes one file as a value.
pub fn serialize_file(file: &TorrentFile) -> (value: BencodeValue)
    ensures
        value@ == file_tree(file@),
{
    let mut entries: Vec<DictEntry> = Vec::new();
    entries.push(
        DictEntry {
            key: Field::Length.key_vec(),
            value: BencodeValue::Integer(file.length),
        },
    );
    entries.push(
        DictEntry { key: Field::Path.key_vec(), value: serialize_texts(&file.path) },
    );
    proof {
        lemma_dict_view(entries);
        assert(entries_view(entries@) =~= file_tree(file@)->Dict_0);
    }
    BencodeValue::Dict(entries)
}

/// Writes the file list of a torrent as the value to store under `files`.
pub fn serialize(files: &Vec<TorrentFile>) -> (value: BencodeValue)
    ensures
        value@ == files_tree(files_view(files@)),
{
    let mut items: Vec<BencodeValue> = Vec::new();
    let mut i: usize = 0;
    while i < files.len()
        invariant
            i <= files.len(),
            items@.len() == i,
            forall|j: int| 0 <= j < i ==> (#[trigger] items@[j])@ == file_tree(files@[j]@),
        decreases files.len() - i,
    {
        items.push(serialize_file(&files[i]));
        i += 1;
    }
    proof {
        lemma_list_view(items);
        assert(items_view(items@) =~= files_tree(files_view(files@))->List_0);
    }
    BencodeValue::List(items)
}

} // verus!
