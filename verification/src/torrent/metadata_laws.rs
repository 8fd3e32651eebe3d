//! What holds of reading and writing a whole torrent file, for every value.

use crate::bencode::{inserted, keys_ascending, lemma_lookup_found, lookup, Bencode};
use crate::decoding::{decodes_to, MAX_DEPTH};
use crate::encoding::encoding;
use crate::error::{Field, SchemaError};
use crate::schema::{lemma_unnamed_all, names, optional_int, optional_text, optional_texts};
use crate::schema::{required_text, unnamed};
use crate::torrent::files::texts_tree;
use crate::torrent::info::{info_of, info_tree};
use crate::torrent::laws::{all_values, law_decoded_info_is_valid, law_info_round_trip};
use crate::torrent::laws::{lemma_absent, lemma_info_tree_shape, lemma_kept_orderly};
use crate::torrent::laws::{lemma_stored, lemma_stored_all, lemma_text_round_trip};
use crate::torrent::laws::{lemma_texts_round_trip, lemma_texts_tree_shape, nested_within};
use crate::torrent::laws::{orderly, valid_info};
use crate::torrent::metadata::{required_info, root_fields, torrent_entries, torrent_of};
use crate::torrent::metadata::{torrent_tree, with_text, with_texts};
use crate::torrent::{TorrentInfoView, TorrentView};
use vstd::prelude::*;
use vstd::utf8::encode_utf8;

verus! {

/// A torrent as decoding yields it: its info dictionary is valid, and its
/// extra entries are in order.
pub open spec fn valid_torrent(torrent: TorrentView) -> bool {
    &&& valid_info(torrent.info)
    &&& orderly(torrent.extra_fields, root_fields())
}

/// The extra entries of the torrent and of its info dictionary are nested
/// shallow enough for the whole file to be decoded.
pub open spec fn shallow_torrent(torrent: TorrentView) -> bool {
    &&& nested_within(torrent.extra_fields, (MAX_DEPTH - 1) as nat)
    &&& nested_within(torrent.info.extra_fields, (MAX_DEPTH - 2) as nat)
}

/// The value that a text which may be absent is written as.
pub open spec fn text_value(text: Option<Seq<char>>) -> Option<Bencode> {
    match text {
        Some(text) => Some(Bencode::Bytes(encode_utf8(text))),
        None => None,
    }
}

/// The value that a list of texts is written as, unless it is empty.
pub open spec fn texts_value(texts: Seq<Seq<char>>) -> Option<Bencode> {
    if texts.len() == 0 {
        None
    } else {
        Some(texts_tree(texts))
    }
}

/// Each field of a torrent file is one that its schema names.
pub proof fn lemma_root_fields_named()
    ensures
        names(root_fields(), Field::Announce.key()),
        names(root_fields(), Field::AnnounceList.key()),
        names(root_fields(), Field::Info.key()),
        names(root_fields(), Field::CreatedBy.key()),
        names(root_fields(), Field::CreationDate.key()),
        names(root_fields(), Field::Comment.key()),
        names(root_fields(), Field::Encoding.key()),
        names(root_fields(), Field::UrlList.key()),
{
    let fields = root_fields();
    assert(fields[0] == Field::Announce);
    assert(fields[1] == Field::AnnounceList);
    assert(fields[2] == Field::Info);
    assert(fields[3] == Field::CreatedBy);
    assert(fields[4] == Field::CreationDate);
    assert(fields[5] == Field::Comment);
    assert(fields[6] == Field::Encoding);
    assert(fields[7] == Field::UrlList);
}

/// One value more, where there is one: the keys still ascend, the entries
/// that the schema does not name are the same, and what is found under the
/// key of any field is the new value or what was found before.
pub proof fn lemma_stored_if(
    entries: Seq<(Seq<u8>, Bencode)>,
    field: Field,
    value: Option<Bencode>,
    fields: Seq<Field>,
    after: Seq<(Seq<u8>, Bencode)>,
)
    requires
        keys_ascending(entries),
        names(fields, field.key()),
        lookup(entries, field.key()) is None,
        after == match value {
            Some(value) => inserted(entries, field.key(), value),
            None => entries,
        },
    ensures
        keys_ascending(after),
        unnamed(after, fields) == unnamed(entries, fields),
        forall|other: Field| #[trigger]
            lookup(after, other.key()) == if other == field {
                value
            } else {
                lookup(entries, other.key())
            },
{
    match value {
        Some(value) => {
            lemma_stored(entries, field, value, fields);
        },
        None => {},
    }
}

/// What is found in a written torrent file under the keys of its schema,
/// and beside them.
pub proof fn lemma_torrent_entries(torrent: TorrentView)
    requires
        orderly(torrent.extra_fields, root_fields()),
    ensures
        keys_ascending(torrent_entries(torrent)),
        unnamed(torrent_entries(torrent), root_fields()) == torrent.extra_fields,
        lookup(torrent_entries(torrent), Field::Announce.key()) == Some(
            Bencode::Bytes(encode_utf8(torrent.announce)),
        ),
        lookup(torrent_entries(torrent), Field::AnnounceList.key()) == texts_value(
            torrent.announce_list,
        ),
        lookup(torrent_entries(torrent), Field::Info.key()) == Some(info_tree(torrent.info)),
        lookup(torrent_entries(torrent), Field::CreatedBy.key()) == text_value(torrent.created_by),
        lookup(torrent_entries(torrent), Field::CreationDate.key()) == match torrent.creation_date {
            Some(seconds) => Some(Bencode::Integer(seconds)),
            None => None,
        },
        lookup(torrent_entries(torrent), Field::Comment.key()) == text_value(torrent.comment),
        lookup(torrent_entries(torrent), Field::Encoding.key()) == text_value(torrent.encoding),
        lookup(torrent_entries(torrent), Field::UrlList.key()) == texts_value(torrent.url_list),
{
    let fields = root_fields();
    lemma_root_fields_named();
    let e0 = torrent.extra_fields;
    lemma_absent(e0, fields, Field::Announce);
    lemma_absent(e0, fields, Field::AnnounceList);
    lemma_absent(e0, fields, Field::Info);
    lemma_absent(e0, fields, Field::CreatedBy);
    lemma_absent(e0, fields, Field::CreationDate);
    lemma_absent(e0, fields, Field::Comment);
    lemma_absent(e0, fields, Field::Encoding);
    lemma_absent(e0, fields, Field::UrlList);
    lemma_unnamed_all(e0, fields);
    let v1 = Bencode::Bytes(encode_utf8(torrent.announce));
    let e1 = inserted(e0, Field::Announce.key(), v1);
    lemma_stored_if(e0, Field::Announce, Some(v1), fields, e1);
    let e2 = with_texts(e1, Field::AnnounceList, torrent.announce_list);
    lemma_stored_if(e1, Field::AnnounceList, texts_value(torrent.announce_list), fields, e2);
    let e3 = inserted(e2, Field::Info.key(), info_tree(torrent.info));
    lemma_stored_if(e2, Field::Info, Some(info_tree(torrent.info)), fields, e3);
    let e4 = with_text(e3, Field::CreatedBy, torrent.created_by);
    lemma_stored_if(e3, Field::CreatedBy, text_value(torrent.created_by), fields, e4);
    let date = match torrent.creation_date {
        Some(seconds) => Some(Bencode::Integer(seconds)),
        None => None,
    };
    let e5 = match torrent.creation_date {
        Some(seconds) => inserted(e4, Field::CreationDate.key(), Bencode::Integer(seconds)),
        None => e4,
    };
    lemma_stored_if(e4, Field::CreationDate, date, fields, e5);
    let e6 = with_text(e5, Field::Comment, torrent.comment);
    lemma_stored_if(e5, Field::Comment, text_value(torrent.comment), fields, e6);
    let e7 = with_text(e6, Field::Encoding, torrent.encoding);
    lemma_stored_if(e6, Field::Encoding, text_value(torrent.encoding), fields, e7);
    let e8 = with_texts(e7, Field::UrlList, torrent.url_list);
    lemma_stored_if(e7, Field::UrlList, texts_value(torrent.url_list), fields, e8);
    assert(e8 == torrent_entries(torrent));
}

/// A text that may be absent, written and read again, is the same.
pub proof fn lemma_optional_text_round_trip(
    entries: Seq<(Seq<u8>, Bencode)>,
    field: Field,
    text: Option<Seq<char>>,
)
    requires
        lookup(entries, field.key()) == text_value(text),
    ensures
        optional_text(entries, field) == Ok::<Option<Seq<char>>, SchemaError>(text),
{
    if text is Some {
        lemma_text_round_trip(text->Some_0, field);
    }
}

/// A list of texts, written and read again, is the same.
pub proof fn lemma_optional_texts_round_trip(
    entries: Seq<(Seq<u8>, Bencode)>,
    field: Field,
    texts: Seq<Seq<char>>,
)
    requires
        lookup(entries, field.key()) == texts_value(texts),
    ensures
        optional_texts(entries, field) == Ok::<Seq<Seq<char>>, SchemaError>(texts),
{
    if texts.len() == 0 {
        assert(texts =~= Seq::empty());
    } else {
        lemma_texts_round_trip(texts, field);
    }
}

/// Reading what was written gives the torrent back: for every valid
/// torrent, the value that it is written as is read as that same torrent,
/// extra entries and all.
pub proof fn law_torrent_round_trip(torrent: TorrentView)
    requires
        valid_torrent(torrent),
    ensures
        torrent_of(torrent_tree(torrent)) == Ok::<TorrentView, SchemaError>(torrent),
{
    let entries = torrent_entries(torrent);
    lemma_torrent_entries(torrent);
    lemma_text_round_trip(torrent.announce, Field::Announce);
    assert(required_text(entries, Field::Announce) == Ok::<Seq<char>, SchemaError>(
        torrent.announce,
    ));
    lemma_optional_texts_round_trip(entries, Field::AnnounceList, torrent.announce_list);
    law_info_round_trip(torrent.info);
    assert(required_info(entries) == Ok::<TorrentInfoView, SchemaError>(torrent.info));
    lemma_optional_text_round_trip(entries, Field::CreatedBy, torrent.created_by);
    assert(optional_int(entries, Field::CreationDate) == Ok::<Option<i64>, SchemaError>(
        torrent.creation_date,
    ));
    lemma_optional_text_round_trip(entries, Field::Comment, torrent.comment);
    lemma_optional_text_round_trip(entries, Field::Encoding, torrent.encoding);
    lemma_optional_texts_round_trip(entries, Field::UrlList, torrent.url_list);
}

/// The entries of a torrent file that its schema does not name are kept by
/// decoding, as they are: each of them stands among the extra fields, and
/// the extra fields hold nothing else.
pub proof fn law_top_level_extra_fields_are_kept(
    entries: Seq<(Seq<u8>, Bencode)>,
    e: (Seq<u8>, Bencode),
)
    requires
        torrent_of(Bencode::Dict(entries)) is Ok,
    ensures
        torrent_of(Bencode::Dict(entries))->Ok_0.extra_fields.contains(e) <==> entries.contains(e)
            && !names(root_fields(), e.0),
{
    crate::schema::lemma_unnamed_members(entries, root_fields());
}

/// What decoding yields from a canonical value is a valid torrent.
pub proof fn law_decoded_torrent_is_valid(value: Bencode)
    requires
        value.canonical(),
        torrent_of(value) is Ok,
    ensures
        valid_torrent(torrent_of(value)->Ok_0),
{
    let entries = value->Dict_0;
    lemma_kept_orderly(entries, root_fields());
    lemma_lookup_found(entries, Field::Info.key());
    let info = lookup(entries, Field::Info.key())->Some_0;
    let i = choose|i: int| 0 <= i < entries.len() && #[trigger] entries[i] == (Field::Info.key(), info);
    assert(entries[i].1.canonical());
    law_decoded_info_is_valid(info);
}

/// The entries of a written torrent file all have a property that the extra
/// entries have, and that the values of its fields have.
pub proof fn lemma_torrent_values(torrent: TorrentView, property: spec_fn(Bencode) -> bool)
    requires
        keys_ascending(torrent.extra_fields),
        all_values(torrent.extra_fields, property),
        property(Bencode::Bytes(encode_utf8(torrent.announce))),
        property(texts_tree(torrent.announce_list)),
        property(info_tree(torrent.info)),
        torrent.created_by matches Some(text) ==> property(Bencode::Bytes(encode_utf8(text))),
        torrent.creation_date matches Some(seconds) ==> property(Bencode::Integer(seconds)),
        torrent.comment matches Some(text) ==> property(Bencode::Bytes(encode_utf8(text))),
        torrent.encoding matches Some(text) ==> property(Bencode::Bytes(encode_utf8(text))),
        property(texts_tree(torrent.url_list)),
    ensures
        all_values(torrent_entries(torrent), property),
        keys_ascending(torrent_entries(torrent)),
{
    let e0 = torrent.extra_fields;
    let v1 = Bencode::Bytes(encode_utf8(torrent.announce));
    let e1 = inserted(e0, Field::Announce.key(), v1);
    lemma_stored_all(e0, Field::Announce.key(), v1, property);
    let e2 = with_texts(e1, Field::AnnounceList, torrent.announce_list);
    if torrent.announce_list.len() > 0 {
        lemma_stored_all(e1, Field::AnnounceList.key(), texts_tree(torrent.announce_list), property);
    }
    let e3 = inserted(e2, Field::Info.key(), info_tree(torrent.info));
    lemma_stored_all(e2, Field::Info.key(), info_tree(torrent.info), property);
    let e4 = with_text(e3, Field::CreatedBy, torrent.created_by);
    if torrent.created_by is Some {
        lemma_stored_all(
            e3,
            Field::CreatedBy.key(),
            Bencode::Bytes(encode_utf8(torrent.created_by->Some_0)),
            property,
        );
    }
    let e5 = match torrent.creation_date {
        Some(seconds) => inserted(e4, Field::CreationDate.key(), Bencode::Integer(seconds)),
        None => e4,
    };
    if torrent.creation_date is Some {
        lemma_stored_all(
            e4,
            Field::CreationDate.key(),
            Bencode::Integer(torrent.creation_date->Some_0),
            property,
        );
    }
    let e6 = with_text(e5, Field::Comment, torrent.comment);
    if torrent.comment is Some {
        lemma_stored_all(
            e5,
            Field::Comment.key(),
            Bencode::Bytes(encode_utf8(torrent.comment->Some_0)),
            property,
        );
    }
    let e7 = with_text(e6, Field::Encoding, torrent.encoding);
    if torrent.encoding is Some {
        lemma_stored_all(
            e6,
            Field::Encoding.key(),
            Bencode::Bytes(encode_utf8(torrent.encoding->Some_0)),
            property,
        );
    }
    if torrent.url_list.len() > 0 {
        lemma_stored_all(e7, Field::UrlList.key(), texts_tree(torrent.url_list), property);
    }
}

/// The bytes of a valid torrent decode to the value that was written.
pub proof fn lemma_torrent_decodes(torrent: TorrentView)
    requires
        valid_torrent(torrent),
        shallow_torrent(torrent),
    ensures
        decodes_to(encoding(torrent_tree(torrent)), torrent_tree(torrent), MAX_DEPTH as nat),
{
    let limit = (MAX_DEPTH - 1) as nat;
    let canonical = |value: Bencode| value.canonical();
    let bounded = |value: Bencode| value.within_depth(limit);
    lemma_info_tree_shape(torrent.info, limit);
    lemma_texts_tree_shape(torrent.announce_list, limit);
    lemma_texts_tree_shape(torrent.url_list, limit);
    assert(all_values(torrent.extra_fields, canonical));
    lemma_torrent_values(torrent, canonical);
    lemma_torrent_values(torrent, bounded);
    let entries = torrent_entries(torrent);
    assert forall|i: int| 0 <= i < entries.len() implies (#[trigger] entries[i]).1.canonical() by {
        assert(canonical(entries[i].1));
    }
    assert forall|i: int| 0 <= i < entries.len() implies (#[trigger] entries[i]).1.within_depth(
        limit,
    ) by {
        assert(bounded(entries[i].1));
    }
    let bytes = encoding(torrent_tree(torrent));
    assert(bytes.subrange(0, bytes.len() as int) =~= bytes);
}

} // verus!
