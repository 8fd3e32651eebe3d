//! The info dictionary as a value tree: reading it, and writing it in the
//! one form that is hashed.

use crate::bencode::{dict_insert, entries_view, inserted, lemma_dict_view, lookup};
use crate::bencode::{clone_entries, Bencode, BencodeValue, DictEntry};
use crate::encoding::encoding;
use crate::error::{Field, Kind, SchemaError};
use crate::schema::{extra_entries, find, find_required_int, find_required_text};
use crate::schema::{required_int, required_text, unnamed};
use crate::text::text_bytes;
use crate::torrent::files::{files_of, files_tree};
use crate::torrent::pieces::{pieces_bytes, pieces_of};
use crate::torrent::{files_view, pieces_view, FileMode, FileModeView};
use crate::torrent::{TorrentInfo, TorrentInfoAdditionalFields, TorrentInfoView};
use vstd::prelude::*;
use vstd::utf8::encode_utf8;

verus! {

/// The keys of an info dictionary that the schema names.
pub open spec fn info_fields() -> Seq<Field> {
    seq![
        Field::Name,
        Field::PieceLength,
        Field::Pieces,
        Field::Length,
        Field::Files,
        Field::Private,
    ]
}

/// The piece length of an info dictionary: an integer above zero.
pub open spec fn piece_length_of(entries: Seq<(Seq<u8>, Bencode)>) -> Result<i64, SchemaError> {
    match required_int(entries, Field::PieceLength) {
        Err(e) => Err(e),
        Ok(n) => if n <= 0 {
            Err(SchemaError::OutOfRange(Field::PieceLength))
        } else {
            Ok(n)
        },
    }
}

/// The piece hashes of an info dictionary.
pub open spec fn hashes_of(entries: Seq<(Seq<u8>, Bencode)>) -> Result<
    Seq<Seq<u8>>,
    SchemaError,
> {
    match lookup(entries, Field::Pieces.key()) {
        None => Err(SchemaError::MissingField(Field::Pieces)),
        Some(Bencode::Bytes(bytes)) => pieces_of(bytes),
        Some(other) => Err(
            SchemaError::TypeMismatch { expected: Kind::Bytes, found: other.kind() },
        ),
    }
}

/// The one file of an info dictionary without files: its length, which must
/// be there and must not be negative.
pub open spec fn single_of(entries: Seq<(Seq<u8>, Bencode)>) -> Result<FileModeView, SchemaError> {
    match lookup(entries, Field::Length.key()) {
        None => Err(SchemaError::AmbiguousFileMode),
        Some(Bencode::Integer(n)) => if n < 0 {
            Err(SchemaError::OutOfRange(Field::Length))
        } else {
            Ok(FileModeView::SingleFile { length: n })
        },
        Some(other) => Err(
            SchemaError::TypeMismatch { expected: Kind::Integer, found: other.kind() },
        ),
    }
}

/// What the info dictionary describes. With a list of files that is not
/// empty it describes several files, and must then hold no length. Without
/// one it describes a single file, and must hold the length. To hold both,
/// or neither, is ambiguous.
pub open spec fn mode_of(entries: Seq<(Seq<u8>, Bencode)>) -> Result<FileModeView, SchemaError> {
    match lookup(entries, Field::Files.key()) {
        None => single_of(entries),
        Some(Bencode::List(items)) => if items.len() == 0 {
            single_of(entries)
        } else if lookup(entries, Field::Length.key()) is Some {
            Err(SchemaError::AmbiguousFileMode)
        } else {
            match files_of(Bencode::List(items)) {
                Ok(files) => Ok(FileModeView::MultiFile { files }),
                Err(e) => Err(e),
            }
        },
        Some(other) => Err(SchemaError::TypeMismatch { expected: Kind::List, found: other.kind() }),
    }
}

/// The flag that an integer stands for: 0 for no, 1 for yes.
pub open spec fn flag_of(value: Bencode) -> Result<bool, SchemaError> {
    match value {
        Bencode::Integer(i) => if i == 0 {
            Ok(false)
        } else if i == 1 {
            Ok(true)
        } else {
            Err(SchemaError::OutOfRange(Field::Private))
        },
        _ => Err(SchemaError::TypeMismatch { expected: Kind::Integer, found: value.kind() }),
    }
}

/// Whether the torrent is private: the flag under `private`, and no where
/// the key is absent.
pub open spec fn private_of(entries: Seq<(Seq<u8>, Bencode)>) -> Result<bool, SchemaError> {
    match lookup(entries, Field::Private.key()) {
        None => Ok(false),
        Some(value) => flag_of(value),
    }
}

/// The info dictionary that a value holds. The checks are made in this
/// order: the dictionary, the name, the piece length, the piece hashes, the
/// file or files, the private flag. Entries under other keys are kept as
/// they are.
pub open spec fn info_of(value: Bencode) -> Result<TorrentInfoView, SchemaError> {
    match value {
        Bencode::Dict(entries) => match required_text(entries, Field::Name) {
            Err(e) => Err(e),
            Ok(name) => match piece_length_of(entries) {
                Err(e) => Err(e),
                Ok(piece_length) => match hashes_of(entries) {
                    Err(e) => Err(e),
                    Ok(pieces) => match mode_of(entries) {
                        Err(e) => Err(e),
                        Ok(mode) => match private_of(entries) {
                            Err(e) => Err(e),
                            Ok(private) => Ok(
                                TorrentInfoView {
                                    name,
                                    piece_length,
                                    pieces,
                                    mode,
                                    private,
                                    extra_fields: unnamed(entries, info_fields()),
                                },
                            ),
                        },
                    },
                },
            },
        },
        _ => Err(SchemaError::TypeMismatch { expected: Kind::Dict, found: value.kind() }),
    }
}

/// Reads a flag from an integer that is 0 or 1.
pub fn from_bool_to_int(value: &BencodeValue) -> (r: Result<bool, SchemaError>)
    ensures
        r == flag_of(value@),
{
    let i = value.expect_int()?;
    if i == 0 {
        Ok(false)
    } else if i == 1 {
        Ok(true)
    } else {
        Err(SchemaError::OutOfRange(Field::Private))
    }
}

/// Reads the length of the one file of an info dictionary without files.
fn decode_single(entries: &Vec<DictEntry>) -> (r: Result<FileMode, SchemaError>)
    ensures
        match r {
            Ok(mode) => single_of(entries_view(entries@)) == Ok::<FileModeView, SchemaError>(
                mode@,
            ),
            Err(e) => single_of(entries_view(entries@)) == Err::<FileModeView, SchemaError>(e),
        },
{
    match find(entries, Field::Length) {
        None => Err(SchemaError::AmbiguousFileMode),
        Some(value) => {
            let length = value.expect_int()?;
            if length < 0 {
                return Err(SchemaError::OutOfRange(Field::Length));
            }
            Ok(FileMode::SingleFile { length })
        },
    }
}

/// Reads what the info dictionary describes: one file or several.
fn decode_mode(entries: &Vec<DictEntry>) -> (r: Result<FileMode, SchemaError>)
    ensures
        match r {
            Ok(mode) => mode_of(entries_view(entries@)) == Ok::<FileModeView, SchemaError>(mode@),
            Err(e) => mode_of(entries_view(entries@)) == Err::<FileModeView, SchemaError>(e),
        },
{
    match find(entries, Field::Files) {
        None => decode_single(entries),
        Some(value) => {
            let items = value.expect_list()?;
            if items.len() == 0 {
                decode_single(entries)
            } else if find(entries, Field::Length).is_some() {
                Err(SchemaError::AmbiguousFileMode)
            } else {
                let files = crate::torrent::files::deserialize(value)?;
                Ok(FileMode::MultiFile { files })
            }
        },
    }
}

/// The keys of an info dictionary that the schema names.
fn known_info_fields() -> (fields: Vec<Field>)
    ensures
        fields@ == info_fields(),
{
    let mut fields: Vec<Field> = Vec::new();
    fields.push(Field::Name);
    fields.push(Field::PieceLength);
    fields.push(Field::Pieces);
    fields.push(Field::Length);
    fields.push(Field::Files);
    fields.push(Field::Private);
    assert(fields@ =~= info_fields());
    fields
}

/// The entries of the info dictionary as it is written: the entries that
/// the schema does not name, and among them, each at the place of its key,
/// the name, the piece length, the piece hashes, the length or the files,
/// and the private flag where it is set.
pub open spec fn info_entries(info: TorrentInfoView) -> Seq<(Seq<u8>, Bencode)> {
    let named = inserted(info.extra_fields, Field::Name.key(), Bencode::Bytes(encode_utf8(info.name)));
    let sized = inserted(named, Field::PieceLength.key(), Bencode::Integer(info.piece_length));
    let hashed = inserted(sized, Field::Pieces.key(), Bencode::Bytes(pieces_bytes(info.pieces)));
    let filled = match info.mode {
        FileModeView::SingleFile { length } => inserted(
            hashed,
            Field::Length.key(),
            Bencode::Integer(length),
        ),
        FileModeView::MultiFile { files } => inserted(hashed, Field::Files.key(), files_tree(files)),
    };
    if info.private {
        inserted(filled, Field::Private.key(), Bencode::Integer(1))
    } else {
        filled
    }
}

/// The info dictionary as a value.
pub open spec fn info_tree(info: TorrentInfoView) -> Bencode {
    Bencode::Dict(info_entries(info))
}

/// The bytes of the info dictionary in canonical form: the encoding of its
/// value, in which the keys of every dictionary ascend.
pub open spec fn canonical_bytes(info: TorrentInfoView) -> Seq<u8> {
    encoding(info_tree(info))
}

impl TorrentInfo {
    /// Reads an info dictionary from its value tree.
    pub fn from_value(value: &BencodeValue) -> (r: Result<TorrentInfo, SchemaError>)
        ensures
            match r {
                Ok(info) => info_of(value@) == Ok::<TorrentInfoView, SchemaError>(info@),
                Err(e) => info_of(value@) == Err::<TorrentInfoView, SchemaError>(e),
            },
    {
        let entries = value.expect_dict()?;
        let name = find_required_text(entries, Field::Name)?;
        let piece_length = find_required_int(entries, Field::PieceLength)?;
        if piece_length <= 0 {
            return Err(SchemaError::OutOfRange(Field::PieceLength));
        }
        let pieces = match find(entries, Field::Pieces) {
            None => return Err(SchemaError::MissingField(Field::Pieces)),
            Some(value) => {
                let bytes = value.expect_bytes()?;
                crate::torrent::pieces::deserialize(bytes.as_slice())?
            },
        };
        let mode = decode_mode(entries)?;
        let private = match find(entries, Field::Private) {
            None => false,
            Some(value) => from_bool_to_int(value)?,
        };
        let extra_fields = extra_entries(entries, &known_info_fields());
        Ok(
            TorrentInfo {
                name,
                piece_length,
                pieces,
                mode,
                additional_fields: TorrentInfoAdditionalFields { private, extra_fields },
            },
        )
    }

    /// Writes the info dictionary as a value tree.
    pub fn to_value(&self) -> (value: BencodeValue)
        ensures
            value@ == info_tree(self@),
    {
        let mut entries = clone_entries(&self.additional_fields.extra_fields);
        dict_insert(&mut entries, Field::Name.key_vec(), BencodeValue::Bytes(text_bytes(&self.name)));
        dict_insert(
            &mut entries,
            Field::PieceLength.key_vec(),
            BencodeValue::Integer(self.piece_length),
        );
        dict_insert(
            &mut entries,
            Field::Pieces.key_vec(),
            BencodeValue::Bytes(crate::torrent::pieces::serialize(&self.pieces)),
        );
        match &self.mode {
            FileMode::SingleFile { length } => {
                dict_insert(&mut entries, Field::Length.key_vec(), BencodeValue::Integer(*length));
            },
            FileMode::MultiFile { files } => {
                dict_insert(
                    &mut entries,
                    Field::Files.key_vec(),
                    crate::torrent::files::serialize(files),
                );
            },
        }
        if !crate::skip_empty::bool(&self.additional_fields.private) {
            dict_insert(&mut entries, Field::Private.key_vec(), BencodeValue::Integer(1));
        }
        proof {
            lemma_dict_view(entries);
        }
        BencodeValue::Dict(entries)
    }

    /// The bytes of the info dictionary in canonical form. These are the
    /// bytes that are hashed.
    pub fn encode_canonical(&self) -> (bytes: Vec<u8>)
        ensures
            bytes@ == canonical_bytes(self@),
    {
        self.to_value().encode()
    }
}

} // verus!
