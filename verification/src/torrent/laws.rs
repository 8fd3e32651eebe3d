//! What holds of reading and writing an info dictionary, for every value.

use crate::bencode::{inserted, keys_ascending, lemma_inserted_ascending, lemma_lookup_found};
use crate::bencode::{lemma_lookup_inserted, lookup, Bencode};
use crate::error::{lemma_keys_differ, Field, SchemaError};
use crate::schema::{collect, lemma_collect_all, lemma_unnamed_all, lemma_unnamed_inserted, names};
use crate::schema::{text_of, texts_of, unnamed};
use crate::text::{bytes_lt, differ_at};
use crate::torrent::files::{file_of, file_tree, files_of, files_tree, texts_tree};
use crate::torrent::info::{canonical_bytes, hashes_of, info_entries, info_fields, info_of};
use crate::torrent::info::{info_tree, mode_of, piece_length_of, private_of, single_of};
use crate::torrent::metadata::{files_length, total_length};
use crate::torrent::pieces::{law_parting_restores_pieces, pieces_bytes};
use crate::decoding::{decode, decodes_to, parse, MAX_DEPTH};
use crate::encoding::encoding;
use crate::torrent::{FileModeView, TorrentError, TorrentFileView, TorrentInfo, TorrentInfoView};
use vstd::prelude::*;
use vstd::utf8::encode_utf8;

verus! {

/// The entries that a structure keeps beside its own fields are in order:
/// their keys ascend, none of them is a key that the schema names, and their
/// values are canonical.
pub open spec fn orderly(extra: Seq<(Seq<u8>, Bencode)>, fields: Seq<Field>) -> bool {
    &&& keys_ascending(extra)
    &&& forall|i: int|
        0 <= i < extra.len() ==> {
            &&& !names(fields, (#[trigger] extra[i]).0)
            &&& extra[i].1.canonical()
        }
}

/// An info dictionary as decoding yields it: the piece length is above
/// zero, every hash has twenty bytes, no length is negative, a torrent of
/// several files has at least one, and the extra entries are in order.
pub open spec fn valid_info(info: TorrentInfoView) -> bool {
    &&& info.piece_length > 0
    &&& forall|i: int| 0 <= i < info.pieces.len() ==> (#[trigger] info.pieces[i]).len() == 20
    &&& match info.mode {
        FileModeView::SingleFile { length } => length >= 0,
        FileModeView::MultiFile { files } => {
            &&& files.len() > 0
            &&& forall|i: int| 0 <= i < files.len() ==> (#[trigger] files[i]).length >= 0
        },
    }
    &&& orderly(info.extra_fields, info_fields())
}

/// A text that is written and read again is the same text.
pub proof fn lemma_text_round_trip(text: Seq<char>, field: Field)
    ensures
        text_of(Bencode::Bytes(encode_utf8(text)), field) == Ok::<Seq<char>, SchemaError>(text),
{
    vstd::utf8::encode_utf8_valid_utf8(text);
    vstd::utf8::encode_utf8_decode_utf8(text);
}

/// A list of texts that is written and read again is the same list.
pub proof fn lemma_texts_round_trip(texts: Seq<Seq<char>>, field: Field)
    ensures
        texts_of(texts_tree(texts), field) == Ok::<Seq<Seq<char>>, SchemaError>(texts),
{
    let items = texts_tree(texts)->List_0;
    let results = Seq::new(items.len(), |i: int| text_of(items[i], field));
    assert forall|i: int| 0 <= i < results.len() implies #[trigger] results[i] == Ok::<
        Seq<char>,
        SchemaError,
    >(texts[i]) by {
        lemma_text_round_trip(texts[i], field);
    }
    lemma_collect_all(results, texts);
}

/// A file that is written and read again is the same file.
pub proof fn lemma_file_round_trip(file: TorrentFileView)
    requires
        file.length >= 0,
    ensures
        file_of(file_tree(file)) == Ok::<TorrentFileView, SchemaError>(file),
{
    let entries = file_tree(file)->Dict_0;
    lemma_keys_differ(Field::Length, Field::Path);
    assert(lookup(entries, Field::Length.key()) == Some(Bencode::Integer(file.length)));
    assert(entries.drop_first()[0] == entries[1]);
    assert(lookup(entries.drop_first(), Field::Path.key()) == Some(texts_tree(file.path)));
    assert(lookup(entries, Field::Path.key()) == Some(texts_tree(file.path)));
    lemma_texts_round_trip(file.path, Field::Path);
}

/// A file list that is written and read again is the same list.
pub proof fn lemma_files_round_trip(files: Seq<TorrentFileView>)
    requires
        forall|i: int| 0 <= i < files.len() ==> (#[trigger] files[i]).length >= 0,
    ensures
        files_of(files_tree(files)) == Ok::<Seq<TorrentFileView>, SchemaError>(files),
{
    let items = files_tree(files)->List_0;
    let results = Seq::new(items.len(), |i: int| file_of(items[i]));
    assert forall|i: int| 0 <= i < results.len() implies #[trigger] results[i] == Ok::<
        TorrentFileView,
        SchemaError,
    >(files[i]) by {
        lemma_file_round_trip(files[i]);
    }
    lemma_collect_all(results, files);
}

/// One entry more: the keys still ascend, the key of a field that the
/// schema names is still named by no other entry, and what is found under
/// the key of any field is the new value or what was found before.
pub proof fn lemma_stored(
    entries: Seq<(Seq<u8>, Bencode)>,
    field: Field,
    value: Bencode,
    fields: Seq<Field>,
)
    requires
        keys_ascending(entries),
        names(fields, field.key()),
    ensures
        keys_ascending(inserted(entries, field.key(), value)),
        unnamed(inserted(entries, field.key(), value), fields) == unnamed(entries, fields),
        forall|other: Field| #[trigger]
            lookup(inserted(entries, field.key(), value), other.key()) == if other == field {
                Some(value)
            } else {
                lookup(entries, other.key())
            },
{
    lemma_inserted_ascending(entries, field.key(), value);
    lemma_unnamed_inserted(entries, fields, field.key(), value);
    assert forall|other: Field| #[trigger]
        lookup(inserted(entries, field.key(), value), other.key()) == if other == field {
            Some(value)
        } else {
            lookup(entries, other.key())
        } by {
        lemma_lookup_inserted(entries, field.key(), value, other.key());
        if other != field {
            lemma_keys_differ(other, field);
        }
    }
}

/// Among entries that are in order, nothing is found under the key of a
/// field that the schema names.
pub proof fn lemma_absent(extra: Seq<(Seq<u8>, Bencode)>, fields: Seq<Field>, field: Field)
    requires
        orderly(extra, fields),
        names(fields, field.key()),
    ensures
        lookup(extra, field.key()) is None,
{
    lemma_lookup_found(extra, field.key());
}

/// Each field of the info dictionary is one that its schema names.
pub proof fn lemma_info_fields_named()
    ensures
        names(info_fields(), Field::Name.key()),
        names(info_fields(), Field::PieceLength.key()),
        names(info_fields(), Field::Pieces.key()),
        names(info_fields(), Field::Length.key()),
        names(info_fields(), Field::Files.key()),
        names(info_fields(), Field::Private.key()),
{
    let fields = info_fields();
    assert(fields[0] == Field::Name);
    assert(fields[1] == Field::PieceLength);
    assert(fields[2] == Field::Pieces);
    assert(fields[3] == Field::Length);
    assert(fields[4] == Field::Files);
    assert(fields[5] == Field::Private);
}

/// What is found in a written info dictionary under the keys of its
/// schema, and beside them.
pub proof fn lemma_info_entries(info: TorrentInfoView)
    requires
        orderly(info.extra_fields, info_fields()),
    ensures
        keys_ascending(info_entries(info)),
        unnamed(info_entries(info), info_fields()) == info.extra_fields,
        lookup(info_entries(info), Field::Name.key()) == Some(
            Bencode::Bytes(encode_utf8(info.name)),
        ),
        lookup(info_entries(info), Field::PieceLength.key()) == Some(
            Bencode::Integer(info.piece_length),
        ),
        lookup(info_entries(info), Field::Pieces.key()) == Some(
            Bencode::Bytes(pieces_bytes(info.pieces)),
        ),
        lookup(info_entries(info), Field::Length.key()) == match info.mode {
            FileModeView::SingleFile { length } => Some(Bencode::Integer(length)),
            FileModeView::MultiFile { files } => None,
        },
        lookup(info_entries(info), Field::Files.key()) == match info.mode {
            FileModeView::SingleFile { length } => None,
            FileModeView::MultiFile { files } => Some(files_tree(files)),
        },
        lookup(info_entries(info), Field::Private.key()) == if info.private {
            Some(Bencode::Integer(1))
        } else {
            None
        },
{
    let fields = info_fields();
    lemma_info_fields_named();
    let e0 = info.extra_fields;
    lemma_absent(e0, fields, Field::Length);
    lemma_absent(e0, fields, Field::Files);
    lemma_absent(e0, fields, Field::Private);
    lemma_unnamed_all(e0, fields);
    let v1 = Bencode::Bytes(encode_utf8(info.name));
    let e1 = inserted(e0, Field::Name.key(), v1);
    lemma_stored(e0, Field::Name, v1, fields);
    let v2 = Bencode::Integer(info.piece_length);
    let e2 = inserted(e1, Field::PieceLength.key(), v2);
    lemma_stored(e1, Field::PieceLength, v2, fields);
    let v3 = Bencode::Bytes(pieces_bytes(info.pieces));
    let e3 = inserted(e2, Field::Pieces.key(), v3);
    lemma_stored(e2, Field::Pieces, v3, fields);
    let e4 = match info.mode {
        FileModeView::SingleFile { length } => {
            lemma_stored(e3, Field::Length, Bencode::Integer(length), fields);
            inserted(e3, Field::Length.key(), Bencode::Integer(length))
        },
        FileModeView::MultiFile { files } => {
            lemma_stored(e3, Field::Files, files_tree(files), fields);
            inserted(e3, Field::Files.key(), files_tree(files))
        },
    };
    assert(lookup(e4, Field::Name.key()) == Some(v1));
    assert(lookup(e4, Field::PieceLength.key()) == Some(v2));
    assert(lookup(e4, Field::Pieces.key()) == Some(v3));
    assert(lookup(e4, Field::Private.key()) is None);
    if info.private {
        lemma_stored(e4, Field::Private, Bencode::Integer(1), fields);
    }
}

/// Reading what was written gives the info dictionary back: for every valid
/// info dictionary, the value that it is written as is read as that same
/// info dictionary. So writing again what was read gives the same bytes.
pub proof fn law_info_round_trip(info: TorrentInfoView)
    requires
        valid_info(info),
    ensures
        info_of(info_tree(info)) == Ok::<TorrentInfoView, SchemaError>(info),
        info_of(info_tree(info)) matches Ok(read) && canonical_bytes(read) == canonical_bytes(info),
{
    let entries = info_entries(info);
    lemma_info_entries(info);
    lemma_text_round_trip(info.name, Field::Name);
    law_parting_restores_pieces(info.pieces);
    assert(piece_length_of(entries) == Ok::<i64, SchemaError>(info.piece_length));
    assert(hashes_of(entries) == Ok::<Seq<Seq<u8>>, SchemaError>(info.pieces));
    match info.mode {
        FileModeView::SingleFile { length } => {
            assert(single_of(entries) == Ok::<FileModeView, SchemaError>(info.mode));
        },
        FileModeView::MultiFile { files } => {
            lemma_files_round_trip(files);
            assert(files_tree(files)->List_0.len() == files.len());
        },
    }
    assert(mode_of(entries) == Ok::<FileModeView, SchemaError>(info.mode));
    assert(private_of(entries) == Ok::<bool, SchemaError>(info.private));
}

/// The bytes tell info dictionaries apart: two valid info dictionaries that
/// are written as the same bytes are the same.
pub proof fn law_canonical_bytes_identify(a: TorrentInfoView, b: TorrentInfoView)
    requires
        valid_info(a),
        valid_info(b),
        canonical_bytes(a) == canonical_bytes(b),
    ensures
        a == b,
{
    crate::encoding_laws::law_encoding_is_injective(info_tree(a), info_tree(b));
    law_info_round_trip(a);
    law_info_round_trip(b);
}

/// Two info dictionaries that are the same are written as the same bytes:
/// the bytes depend on nothing but the value.
pub proof fn law_encoding_is_deterministic(a: TorrentInfo, b: TorrentInfo)
    requires
        a@ == b@,
    ensures
        canonical_bytes(a@) == canonical_bytes(b@),
{
}

/// The number of bytes of a torrent of several files is the sum of the
/// lengths of its files.
pub proof fn law_total_is_sum(info: TorrentInfoView)
    requires
        info.mode is MultiFile,
    ensures
        total_length(info) == files_length(info.mode->files, info.mode->files.len()),
        info.mode->files.len() == 0 ==> total_length(info) == 0,
        info.mode->files.len() > 0 ==> total_length(info) == files_length(
            info.mode->files,
            (info.mode->files.len() - 1) as nat,
        ) + info.mode->files.last().length,
{
}

/// The dictionary holds a length.
pub open spec fn holds_length(entries: Seq<(Seq<u8>, Bencode)>) -> bool {
    lookup(entries, Field::Length.key()) is Some
}

/// The dictionary holds a list of files that is not empty.
pub open spec fn holds_files(entries: Seq<(Seq<u8>, Bencode)>) -> bool {
    match lookup(entries, Field::Files.key()) {
        Some(Bencode::List(items)) => items.len() > 0,
        _ => false,
    }
}

/// What stands under `files`, if anything, is a list.
pub open spec fn files_is_list(entries: Seq<(Seq<u8>, Bencode)>) -> bool {
    match lookup(entries, Field::Files.key()) {
        Some(value) => value is List,
        None => true,
    }
}

/// An info dictionary that holds both a length and a list of files that is
/// not empty is ambiguous, and so is one that holds neither. Where the
/// name, the piece length and the piece hashes are in order, that is the
/// error with which decoding fails.
pub proof fn law_ambiguous_file_mode(entries: Seq<(Seq<u8>, Bencode)>)
    requires
        files_is_list(entries),
        holds_length(entries) == holds_files(entries),
    ensures
        mode_of(entries) == Err::<FileModeView, SchemaError>(SchemaError::AmbiguousFileMode),
        crate::schema::required_text(entries, Field::Name) is Ok && piece_length_of(entries) is Ok
            && hashes_of(entries) is Ok ==> info_of(Bencode::Dict(entries)) == Err::<
            TorrentInfoView,
            SchemaError,
        >(SchemaError::AmbiguousFileMode),
{
}

/// The entries of an info dictionary that its schema does not name are
/// kept by decoding, as they are: each of them stands among the extra
/// fields, and the extra fields hold nothing else.
pub proof fn law_extra_fields_are_kept(entries: Seq<(Seq<u8>, Bencode)>, e: (Seq<u8>, Bencode))
    requires
        info_of(Bencode::Dict(entries)) is Ok,
    ensures
        info_of(Bencode::Dict(entries))->Ok_0.extra_fields.contains(e) <==> entries.contains(e)
            && !names(info_fields(), e.0),
{
    crate::schema::lemma_unnamed_members(entries, info_fields());
}

/// Every value among the entries has the property.
pub open spec fn all_values(entries: Seq<(Seq<u8>, Bencode)>, property: spec_fn(Bencode) -> bool) -> bool {
    forall|i: int| 0 <= i < entries.len() ==> property((#[trigger] entries[i]).1)
}

/// One entry more whose value has the property that all the others have.
pub proof fn lemma_stored_all(
    entries: Seq<(Seq<u8>, Bencode)>,
    key: Seq<u8>,
    value: Bencode,
    property: spec_fn(Bencode) -> bool,
)
    requires
        keys_ascending(entries),
        all_values(entries, property),
        property(value),
    ensures
        all_values(inserted(entries, key, value), property),
        keys_ascending(inserted(entries, key, value)),
{
    lemma_inserted_ascending(entries, key, value);
    let result = inserted(entries, key, value);
    assert forall|i: int| 0 <= i < result.len() implies property((#[trigger] result[i]).1) by {
        let e = result[i];
        if e != (key, value) {
            let k = choose|k: int| 0 <= k < entries.len() && entries[k] == e;
            assert(property(entries[k].1));
        }
    }
}

/// The entries of a written info dictionary all have a property that the
/// extra entries have, and that the values of its fields have.
pub proof fn lemma_info_values(info: TorrentInfoView, property: spec_fn(Bencode) -> bool)
    requires
        keys_ascending(info.extra_fields),
        all_values(info.extra_fields, property),
        property(Bencode::Bytes(encode_utf8(info.name))),
        property(Bencode::Integer(info.piece_length)),
        property(Bencode::Bytes(pieces_bytes(info.pieces))),
        property(Bencode::Integer(1)),
        match info.mode {
            FileModeView::SingleFile { length } => property(Bencode::Integer(length)),
            FileModeView::MultiFile { files } => property(files_tree(files)),
        },
    ensures
        all_values(info_entries(info), property),
        keys_ascending(info_entries(info)),
{
    let e0 = info.extra_fields;
    let v1 = Bencode::Bytes(encode_utf8(info.name));
    let e1 = inserted(e0, Field::Name.key(), v1);
    lemma_stored_all(e0, Field::Name.key(), v1, property);
    let v2 = Bencode::Integer(info.piece_length);
    let e2 = inserted(e1, Field::PieceLength.key(), v2);
    lemma_stored_all(e1, Field::PieceLength.key(), v2, property);
    let v3 = Bencode::Bytes(pieces_bytes(info.pieces));
    let e3 = inserted(e2, Field::Pieces.key(), v3);
    lemma_stored_all(e2, Field::Pieces.key(), v3, property);
    let e4 = match info.mode {
        FileModeView::SingleFile { length } => {
            lemma_stored_all(e3, Field::Length.key(), Bencode::Integer(length), property);
            inserted(e3, Field::Length.key(), Bencode::Integer(length))
        },
        FileModeView::MultiFile { files } => {
            lemma_stored_all(e3, Field::Files.key(), files_tree(files), property);
            inserted(e3, Field::Files.key(), files_tree(files))
        },
    };
    if info.private {
        lemma_stored_all(e4, Field::Private.key(), Bencode::Integer(1), property);
    }
}

/// A written list of texts is canonical, and nested one deep.
pub proof fn lemma_texts_tree_shape(texts: Seq<Seq<char>>, limit: nat)
    requires
        limit >= 1,
    ensures
        texts_tree(texts).canonical(),
        texts_tree(texts).within_depth(limit),
{
    let items = texts_tree(texts)->List_0;
    assert forall|k: int| 0 <= k < items.len() implies (#[trigger] items[k]).canonical()
        && items[k].within_depth((limit - 1) as nat) by {}
}

/// A written file list is canonical, and nested three deep.
pub proof fn lemma_files_tree_shape(files: Seq<TorrentFileView>, limit: nat)
    requires
        limit >= 3,
    ensures
        files_tree(files).canonical(),
        files_tree(files).within_depth(limit),
{
    let items = files_tree(files)->List_0;
    crate::error::lemma_field_signature(Field::Length);
    crate::error::lemma_field_signature(Field::Path);
    assert(Field::Length.key().take(0) =~= Field::Path.key().take(0));
    assert(differ_at(Field::Length.key(), Field::Path.key(), 0));
    assert forall|i: int| 0 <= i < items.len() implies (#[trigger] items[i]).canonical()
        && items[i].within_depth((limit - 1) as nat) by {
        let file = files[i];
        let entries = file_tree(file)->Dict_0;
        lemma_texts_tree_shape(file.path, (limit - 2) as nat);
        assert(entries[0].1.canonical());
        assert(entries[1].1.canonical());
        assert(keys_ascending(entries));
        assert(file_tree(file).canonical());
        assert(entries[0].1.within_depth((limit - 2) as nat));
        assert(entries[1].1.within_depth((limit - 2) as nat));
        assert forall|k: int| 0 <= k < entries.len() implies (#[trigger] entries[k]).1.within_depth(
            (limit - 2) as nat,
        ) by {
            if k == 0 {
            } else {
                assert(k == 1);
            }
        }
        assert(file_tree(file).within_depth((limit - 1) as nat));
    }
}

/// Every value among the entries is nested at most `limit` deep.
pub open spec fn nested_within(entries: Seq<(Seq<u8>, Bencode)>, limit: nat) -> bool {
    all_values(entries, |value: Bencode| value.within_depth(limit))
}

/// The extra entries of the info dictionary are nested shallow enough for
/// the whole dictionary to be decoded.
pub open spec fn shallow(info: TorrentInfoView) -> bool {
    nested_within(info.extra_fields, (MAX_DEPTH - 1) as nat)
}

/// A written info dictionary is canonical, and nested one deeper than its
/// extra entries, and four deep at least.
pub proof fn lemma_info_tree_shape(info: TorrentInfoView, limit: nat)
    requires
        valid_info(info),
        limit >= 4,
        nested_within(info.extra_fields, (limit - 1) as nat),
    ensures
        info_tree(info).canonical(),
        info_tree(info).within_depth(limit),
{
    let canonical = |value: Bencode| value.canonical();
    let bounded = |value: Bencode| value.within_depth((limit - 1) as nat);
    if info.mode is MultiFile {
        lemma_files_tree_shape(info.mode->files, (limit - 1) as nat);
    }
    assert(all_values(info.extra_fields, canonical));
    lemma_info_values(info, canonical);
    lemma_info_values(info, bounded);
    let entries = info_entries(info);
    assert forall|i: int| 0 <= i < entries.len() implies (#[trigger] entries[i]).1.canonical() by {
        assert(canonical(entries[i].1));
    }
    assert forall|i: int| 0 <= i < entries.len() implies (#[trigger] entries[i]).1.within_depth(
        (limit - 1) as nat,
    ) by {
        assert(bounded(entries[i].1));
    }
}

/// The bytes of a valid info dictionary decode to the value that was
/// written.
pub proof fn lemma_info_decodes(info: TorrentInfoView)
    requires
        valid_info(info),
        shallow(info),
    ensures
        decodes_to(canonical_bytes(info), info_tree(info), MAX_DEPTH as nat),
{
    lemma_info_tree_shape(info, MAX_DEPTH as nat);
    assert(canonical_bytes(info).subrange(0, canonical_bytes(info).len() as int)
        =~= canonical_bytes(info));
}

/// The extra entries that decoding keeps from a canonical dictionary are
/// in order.
pub proof fn lemma_kept_orderly(entries: Seq<(Seq<u8>, Bencode)>, fields: Seq<Field>)
    requires
        Bencode::Dict(entries).canonical(),
    ensures
        orderly(unnamed(entries, fields), fields),
{
    let kept = unnamed(entries, fields);
    crate::schema::lemma_unnamed_ascending(entries, fields);
    crate::schema::lemma_unnamed_members(entries, fields);
    assert forall|i: int| 0 <= i < kept.len() implies !names(fields, (#[trigger] kept[i]).0)
        && kept[i].1.canonical() by {
        assert(kept.contains(kept[i]));
        let k = choose|k: int| 0 <= k < entries.len() && entries[k] == kept[i];
        assert(entries[k].1.canonical());
    }
}

/// What decoding yields from a canonical value is a valid info dictionary.
pub proof fn law_decoded_info_is_valid(value: Bencode)
    requires
        value.canonical(),
        info_of(value) is Ok,
    ensures
        valid_info(info_of(value)->Ok_0),
{
    let entries = value->Dict_0;
    let info = info_of(value)->Ok_0;
    lemma_kept_orderly(entries, info_fields());
    match info.mode {
        FileModeView::SingleFile { length } => {},
        FileModeView::MultiFile { files } => {
            let items = lookup(entries, Field::Files.key())->Some_0->List_0;
            let results = Seq::new(items.len(), |i: int| file_of(items[i]));
            crate::schema::lemma_collect_values(results);
            assert forall|i: int| 0 <= i < files.len() implies (#[trigger] files[i]).length
                >= 0 by {
                assert(results[i] == Ok::<TorrentFileView, SchemaError>(files[i]));
            }
        },
    }
}

impl TorrentInfo {
    /// Reads an info dictionary from its bytes. Bytes that a valid info
    /// dictionary was written as are read as that same info dictionary.
    pub fn parse_bytes(bytes: &[u8]) -> (r: Result<TorrentInfo, TorrentError>)
        ensures
            match r {
                Ok(info) => parse(bytes@) matches Some(value) && info_of(value) == Ok::<
                    TorrentInfoView,
                    SchemaError,
                >(info@) && valid_info(info@),
                Err(TorrentError::ParseTorrent(_)) => parse(bytes@) is None,
                Err(TorrentError::Schema(e)) => parse(bytes@) matches Some(value) && info_of(value)
                    == Err::<TorrentInfoView, SchemaError>(e),
            },
            forall|info: TorrentInfoView|
                valid_info(info) && shallow(info) && bytes@ == #[trigger] canonical_bytes(info)
                    ==> (r matches Ok(read) && read@ == info),
    {
        let decoded = decode(bytes);
        proof {
            assert forall|info: TorrentInfoView|
                valid_info(info) && shallow(info) && bytes@ == #[trigger] canonical_bytes(
                    info,
                ) implies parse(bytes@) == Some(info_tree(info)) && info_of(info_tree(info)) == Ok::<
                TorrentInfoView,
                SchemaError,
            >(info) by {
                lemma_info_decodes(info);
                law_info_round_trip(info);
            }
        }
        let value = match decoded {
            Ok(value) => value,
            Err(e) => return Err(TorrentError::ParseTorrent(e)),
        };
        match TorrentInfo::from_value(&value) {
            Ok(info) => {
                proof {
                    law_decoded_info_is_valid(value@);
                }
                Ok(info)
            },
            Err(e) => Err(TorrentError::Schema(e)),
        }
    }
}

} // verus!
