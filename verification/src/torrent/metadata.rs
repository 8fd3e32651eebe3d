//! The torrent file as a value tree and as bytes, the info-hash, and the
//! number of bytes that the torrent holds.

use crate::bencode::{clone_entries, dict_insert, entries_view, inserted, lemma_dict_view};
use crate::bencode::{Bencode, BencodeValue, DictEntry};
use crate::decoding::{decode, parse};
use crate::encoding::encoding;
use crate::error::{Field, Kind, SchemaError};
use crate::hash::{hex_encode, hex_text, sha1, sha1_digest};
use crate::schema::{extra_entries, find_int, find_required, find_required_text, find_text};
use crate::schema::{find_texts, optional_int, optional_text, optional_texts, required};
use crate::schema::{required_text, unnamed};
use crate::text::text_bytes;
use crate::torrent::files::{serialize_texts, texts_tree};
use crate::torrent::info::{canonical_bytes, info_of, info_tree};
use crate::torrent::metadata_laws::{law_decoded_torrent_is_valid, law_torrent_round_trip};
use crate::torrent::metadata_laws::{lemma_torrent_decodes, shallow_torrent, valid_torrent};
use crate::torrent::{FileMode, FileModeView, RootAdditionalFields, Torrent, TorrentError};
use crate::torrent::{TorrentFileView, TorrentInfo, TorrentInfoView, TorrentView};
use vstd::prelude::*;
use vstd::utf8::encode_utf8;

verus! {

/// The keys of a torrent file that the schema names.
pub open spec fn root_fields() -> Seq<Field> {
    seq![
        Field::Announce,
        Field::AnnounceList,
        Field::Info,
        Field::CreatedBy,
        Field::CreationDate,
        Field::Comment,
        Field::Encoding,
        Field::UrlList,
    ]
}

/// The info dictionary of a torrent file, which must be there.
pub open spec fn required_info(entries: Seq<(Seq<u8>, Bencode)>) -> Result<
    TorrentInfoView,
    SchemaError,
> {
    match required(entries, Field::Info) {
        Err(e) => Err(e),
        Ok(value) => info_of(value),
    }
}

/// The torrent that a value holds. The checks are made in this order: the
/// dictionary, the tracker, the further trackers, the info dictionary, the
/// creator, the creation date, the comment, the encoding, the list of URLs.
/// Entries under other keys are kept as they are.
pub open spec fn torrent_of(value: Bencode) -> Result<TorrentView, SchemaError> {
    match value {
        Bencode::Dict(entries) => match required_text(entries, Field::Announce) {
            Err(e) => Err(e),
            Ok(announce) => match optional_texts(entries, Field::AnnounceList) {
                Err(e) => Err(e),
                Ok(announce_list) => match required_info(entries) {
                    Err(e) => Err(e),
                    Ok(info) => match optional_text(entries, Field::CreatedBy) {
                        Err(e) => Err(e),
                        Ok(created_by) => match optional_int(entries, Field::CreationDate) {
                            Err(e) => Err(e),
                            Ok(creation_date) => match optional_text(entries, Field::Comment) {
                                Err(e) => Err(e),
                                Ok(comment) => match optional_text(entries, Field::Encoding) {
                                    Err(e) => Err(e),
                                    Ok(encoding) => match optional_texts(
                                        entries,
                                        Field::UrlList,
                                    ) {
                                        Err(e) => Err(e),
                                        Ok(url_list) => Ok(
                                            TorrentView {
                                                announce,
                                                announce_list,
                                                info,
                                                created_by,
                                                creation_date,
                                                comment,
                                                encoding,
                                                url_list,
                                                extra_fields: unnamed(entries, root_fields()),
                                            },
                                        ),
                                    },
                                },
                            },
                        },
                    },
                },
            },
        },
        _ => Err(SchemaError::TypeMismatch { expected: Kind::Dict, found: value.kind() }),
    }
}

/// The entries with a text stored under the key of `field`, where there is
/// one.
pub open spec fn with_text(
    entries: Seq<(Seq<u8>, Bencode)>,
    field: Field,
    text: Option<Seq<char>>,
) -> Seq<(Seq<u8>, Bencode)> {
    match text {
        Some(text) => inserted(entries, field.key(), Bencode::Bytes(encode_utf8(text))),
        None => entries,
    }
}

/// The entries with a list of texts stored under the key of `field`, unless
/// the list is empty.
pub open spec fn with_texts(
    entries: Seq<(Seq<u8>, Bencode)>,
    field: Field,
    texts: Seq<Seq<char>>,
) -> Seq<(Seq<u8>, Bencode)> {
    if texts.len() == 0 {
        entries
    } else {
        inserted(entries, field.key(), texts_tree(texts))
    }
}

/// The entries of a torrent file as it is written: the entries that the
/// schema does not name, and among them, each at the place of its key, the
/// tracker and the info dictionary, and the other fields where they hold
/// something.
pub open spec fn torrent_entries(torrent: TorrentView) -> Seq<(Seq<u8>, Bencode)> {
    let e1 = inserted(
        torrent.extra_fields,
        Field::Announce.key(),
        Bencode::Bytes(encode_utf8(torrent.announce)),
    );
    let e2 = with_texts(e1, Field::AnnounceList, torrent.announce_list);
    let e3 = inserted(e2, Field::Info.key(), info_tree(torrent.info));
    let e4 = with_text(e3, Field::CreatedBy, torrent.created_by);
    let e5 = match torrent.creation_date {
        Some(seconds) => inserted(e4, Field::CreationDate.key(), Bencode::Integer(seconds)),
        None => e4,
    };
    let e6 = with_text(e5, Field::Comment, torrent.comment);
    let e7 = with_text(e6, Field::Encoding, torrent.encoding);
    with_texts(e7, Field::UrlList, torrent.url_list)
}

/// The torrent file as a value.
pub open spec fn torrent_tree(torrent: TorrentView) -> Bencode {
    Bencode::Dict(torrent_entries(torrent))
}

/// The sum of the lengths of the first `n` files.
pub open spec fn files_length(files: Seq<TorrentFileView>, n: nat) -> int
    decreases n,
{
    if n == 0 || n > files.len() {
        0
    } else {
        files_length(files, (n - 1) as nat) + files[n - 1].length
    }
}

/// The number of bytes that the torrent holds: the length of its one file,
/// or the sum of the lengths of its files.
pub open spec fn total_length(info: TorrentInfoView) -> int {
    match info.mode {
        FileModeView::SingleFile { length } => length as int,
        FileModeView::MultiFile { files } => files_length(files, files.len()),
    }
}

/// The info-hash: the SHA-1 digest of the info dictionary in canonical form.
pub open spec fn info_hash_of(info: TorrentInfoView) -> Seq<u8> {
    sha1(canonical_bytes(info))
}

/// What `r` owes to the bytes of a torrent file: the torrent that they
/// hold, or the error that says why they hold none.
pub open spec fn parsed(bytes: Seq<u8>, r: Result<Torrent, TorrentError>) -> bool {
    match r {
        Ok(torrent) => parse(bytes) matches Some(value) && torrent_of(value) == Ok::<
            TorrentView,
            SchemaError,
        >(torrent@),
        Err(TorrentError::ParseTorrent(_)) => parse(bytes) is None,
        Err(TorrentError::Schema(e)) => parse(bytes) matches Some(value) && torrent_of(value)
            == Err::<TorrentView, SchemaError>(e),
    }
}

/// The keys of a torrent file that the schema names.
fn known_root_fields() -> (fields: Vec<Field>)
    ensures
        fields@ == root_fields(),
{
    let mut fields: Vec<Field> = Vec::new();
    fields.push(Field::Announce);
    fields.push(Field::AnnounceList);
    fields.push(Field::Info);
    fields.push(Field::CreatedBy);
    fields.push(Field::CreationDate);
    fields.push(Field::Comment);
    fields.push(Field::Encoding);
    fields.push(Field::UrlList);
    assert(fields@ =~= root_fields());
    fields
}

/// Stores a text under the key of `field`, where there is one.
fn insert_text(entries: &mut Vec<DictEntry>, field: Field, text: &Option<String>)
    ensures
        entries_view(final(entries)@) == with_text(
            entries_view(old(entries)@),
            field,
            crate::torrent::text_view(*text),
        ),
{
    match text {
        Some(text) => dict_insert(entries, field.key_vec(), BencodeValue::Bytes(text_bytes(text))),
        None => {},
    }
}

/// Stores a list of texts under the key of `field`, unless it is empty.
fn insert_texts(entries: &mut Vec<DictEntry>, field: Field, texts: &Vec<String>)
    ensures
        entries_view(final(entries)@) == with_texts(
            entries_view(old(entries)@),
            field,
            crate::schema::texts_view(texts@),
        ),
{
    if texts.len() > 0 {
        dict_insert(entries, field.key_vec(), serialize_texts(texts));
    }
}

impl TorrentInfo {
    /// The number of bytes that the torrent holds.
    pub fn total_length(&self) -> (total: i128)
        ensures
            total == total_length(self@),
    {
        match &self.mode {
            FileMode::SingleFile { length } => *length as i128,
            FileMode::MultiFile { files } => {
                let ghost models = crate::torrent::files_view(files@);
                let mut total: i128 = 0;
                let mut i: usize = 0;
                while i < files.len()
                    invariant
                        i <= files.len(),
                        models == crate::torrent::files_view(files@),
                        total == files_length(models, i as nat),
                        -(i as int) * 0x8000_0000_0000_0000 <= total <= (i as int)
                            * 0x8000_0000_0000_0000,
                    decreases files.len() - i,
                {
                    total = total + files[i].length as i128;
                    i += 1;
                }
                total
            },
        }
    }

    /// The info-hash of the torrent: 20 bytes.
    pub fn info_hash(&self) -> (hash: Vec<u8>)
        ensures
            hash@ == info_hash_of(self@),
            hash@.len() == 20,
    {
        let bytes = self.encode_canonical();
        sha1_digest(bytes.as_slice())
    }
}

impl Torrent {
    /// Reads a torrent from its value tree.
    pub fn from_value(value: &BencodeValue) -> (r: Result<Torrent, SchemaError>)
        ensures
            match r {
                Ok(torrent) => torrent_of(value@) == Ok::<TorrentView, SchemaError>(torrent@),
                Err(e) => torrent_of(value@) == Err::<TorrentView, SchemaError>(e),
            },
    {
        let entries = value.expect_dict()?;
        let announce = find_required_text(entries, Field::Announce)?;
        let announce_list = find_texts(entries, Field::AnnounceList)?;
        let info = TorrentInfo::from_value(find_required(entries, Field::Info)?)?;
        let created_by = find_text(entries, Field::CreatedBy)?;
        let creation_date = find_int(entries, Field::CreationDate)?;
        let comment = find_text(entries, Field::Comment)?;
        let encoding = find_text(entries, Field::Encoding)?;
        let url_list = find_texts(entries, Field::UrlList)?;
        let extra_fields = extra_entries(entries, &known_root_fields());
        Ok(
            Torrent {
                announce,
                announce_list,
                info,
                additional_fields: RootAdditionalFields {
                    created_by,
                    creation_date,
                    comment,
                    encoding,
                    url_list,
                    extra_fields,
                },
            },
        )
    }

    /// Reads a torrent from the bytes of a torrent file. Bytes after the
    /// dictionary are not looked at. What is read is a valid torrent, and
    /// the bytes that a valid torrent was written as are read as that same
    /// torrent.
    pub fn parse_bytes(bytes: &[u8]) -> (r: Result<Torrent, TorrentError>)
        ensures
            parsed(bytes@, r),
            r matches Ok(torrent) ==> valid_torrent(torrent@),
            forall|torrent: TorrentView|
                valid_torrent(torrent) && shallow_torrent(torrent) && bytes@ == encoding(
                    #[trigger] torrent_tree(torrent),
                ) ==> (r matches Ok(read) && read@ == torrent),
    {
        let decoded = decode(bytes);
        proof {
            assert forall|torrent: TorrentView|
                valid_torrent(torrent) && shallow_torrent(torrent) && bytes@ == encoding(
                    #[trigger] torrent_tree(torrent),
                ) implies parse(bytes@) == Some(torrent_tree(torrent)) && torrent_of(
                torrent_tree(torrent),
            ) == Ok::<TorrentView, SchemaError>(torrent) by {
                lemma_torrent_decodes(torrent);
                law_torrent_round_trip(torrent);
            }
        }
        let value = match decoded {
            Ok(value) => value,
            Err(e) => return Err(TorrentError::ParseTorrent(e)),
        };
        match Torrent::from_value(&value) {
            Ok(torrent) => {
                proof {
                    law_decoded_torrent_is_valid(value@);
                }
                Ok(torrent)
            },
            Err(e) => Err(TorrentError::Schema(e)),
        }
    }

    /// Writes the torrent as a value tree.
    pub fn to_value(&self) -> (value: BencodeValue)
        ensures
            value@ == torrent_tree(self@),
    {
        let mut entries = clone_entries(&self.additional_fields.extra_fields);
        dict_insert(
            &mut entries,
            Field::Announce.key_vec(),
            BencodeValue::Bytes(text_bytes(&self.announce)),
        );
        insert_texts(&mut entries, Field::AnnounceList, &self.announce_list);
        dict_insert(&mut entries, Field::Info.key_vec(), self.info.to_value());
        insert_text(&mut entries, Field::CreatedBy, &self.additional_fields.created_by);
        match self.additional_fields.creation_date {
            Some(seconds) => dict_insert(
                &mut entries,
                Field::CreationDate.key_vec(),
                BencodeValue::Integer(seconds),
            ),
            None => {},
        }
        insert_text(&mut entries, Field::Comment, &self.additional_fields.comment);
        insert_text(&mut entries, Field::Encoding, &self.additional_fields.encoding);
        insert_texts(&mut entries, Field::UrlList, &self.additional_fields.url_list);
        proof {
            lemma_dict_view(entries);
        }
        BencodeValue::Dict(entries)
    }

    /// The bytes of the torrent file.
    pub fn to_bytes(&self) -> (bytes: Vec<u8>)
        ensures
            bytes@ == encoding(torrent_tree(self@)),
    {
        self.to_value().encode()
    }

    /// The number of bytes that the torrent holds: the length of its one
    /// file, or the sum of the lengths of its files.
    pub fn calc_download_lenght(&self) -> (total: i128)
        ensures
            total == total_length(self@.info),
    {
        self.info.total_length()
    }

    /// The info-hash of the torrent: the SHA-1 digest of its info dictionary
    /// in canonical form, 20 bytes.
    pub fn calc_hash(&self) -> (hash: Vec<u8>)
        ensures
            hash@ == info_hash_of(self@.info),
            hash@.len() == 20,
    {
        self.info.info_hash()
    }

    /// The info-hash of the torrent in hexadecimal: 40 digits.
    pub fn calc_hash_hex(&self) -> (text: String)
        ensures
            text@ == hex_text(info_hash_of(self@.info)),
    {
        hex_encode(self.calc_hash().as_slice())
    }
}

} // verus!
