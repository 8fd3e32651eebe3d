//! What can go wrong while a torrent file or a tracker response is decoded.

use crate::text::{ascii_bytes, literal_bytes};
use vstd::prelude::*;

verus! {

/// The four shapes a bencode value can have.
#[derive(Clone, Copy, Debug, PartialEq, Eq, Structural)]
pub enum Kind {
    Integer,
    Bytes,
    List,
    Dict,
}

/// The dictionary keys that the decoders know by name.
#[derive(Clone, Copy, Debug, PartialEq, Eq, Structural)]
pub enum Field {
    Announce,
    AnnounceList,
    Info,
    CreatedBy,
    CreationDate,
    Comment,
    Encoding,
    UrlList,
    Name,
    PieceLength,
    Pieces,
    Length,
    Files,
    Private,
    Path,
    FailureReason,
    Interval,
    Peers,
    Peers6,
    PeerId,
    Ip,
    Port,
}

impl Field {
    /// The key as it is written in a dictionary.
    pub open spec fn name(self) -> Seq<char> {
        match self {
            Field::Announce => "announce"@,
            Field::AnnounceList => "announce-list"@,
            Field::Info => "info"@,
            Field::CreatedBy => "created by"@,
            Field::CreationDate => "creation date"@,
            Field::Comment => "comment"@,
            Field::Encoding => "encoding"@,
            Field::UrlList => "url-list"@,
            Field::Name => "name"@,
            Field::PieceLength => "piece length"@,
            Field::Pieces => "pieces"@,
            Field::Length => "length"@,
            Field::Files => "files"@,
            Field::Private => "private"@,
            Field::Path => "path"@,
            Field::FailureReason => "failure reason"@,
            Field::Interval => "interval"@,
            Field::Peers => "peers"@,
            Field::Peers6 => "peers6"@,
            Field::PeerId => "peer id"@,
            Field::Ip => "ip"@,
            Field::Port => "port"@,
        }
    }

    /// The bytes of the key.
    pub open spec fn key(self) -> Seq<u8> {
        ascii_bytes(self.name())
    }

    /// The key as text.
    pub fn as_str(self) -> (name: &'static str)
        ensures
            name@ == self.name(),
            name.is_ascii(),
    {
        proof {
            reveal_field_names();
        }
        match self {
            Field::Announce => "announce",
            Field::AnnounceList => "announce-list",
            Field::Info => "info",
            Field::CreatedBy => "created by",
            Field::CreationDate => "creation date",
            Field::Comment => "comment",
            Field::Encoding => "encoding",
            Field::UrlList => "url-list",
            Field::Name => "name",
            Field::PieceLength => "piece length",
            Field::Pieces => "pieces",
            Field::Length => "length",
            Field::Files => "files",
            Field::Private => "private",
            Field::Path => "path",
            Field::FailureReason => "failure reason",
            Field::Interval => "interval",
            Field::Peers => "peers",
            Field::Peers6 => "peers6",
            Field::PeerId => "peer id",
            Field::Ip => "ip",
            Field::Port => "port",
        }
    }

    /// The bytes of the key.
    pub fn key_bytes(self) -> (key: &'static [u8])
        ensures
            key@ == self.key(),
    {
        literal_bytes(self.as_str())
    }

    /// The bytes of the key, as a vector of its own.
    pub fn key_vec(self) -> (key: Vec<u8>)
        ensures
            key@ == self.key(),
    {
        vstd::slice::slice_to_vec(self.key_bytes())
    }
}

/// Makes the characters of every key known to the verifier.
pub proof fn reveal_field_names()
    ensures
        "announce"@ == seq!['a', 'n', 'n', 'o', 'u', 'n', 'c', 'e'],
        "announce-list"@ == seq![
            'a', 'n', 'n', 'o', 'u', 'n', 'c', 'e', '-', 'l', 'i', 's', 't',
        ],
        "info"@ == seq!['i', 'n', 'f', 'o'],
        "created by"@ == seq!['c', 'r', 'e', 'a', 't', 'e', 'd', ' ', 'b', 'y'],
        "creation date"@ == seq![
            'c', 'r', 'e', 'a', 't', 'i', 'o', 'n', ' ', 'd', 'a', 't', 'e',
        ],
        "comment"@ == seq!['c', 'o', 'm', 'm', 'e', 'n', 't'],
        "encoding"@ == seq!['e', 'n', 'c', 'o', 'd', 'i', 'n', 'g'],
        "url-list"@ == seq!['u', 'r', 'l', '-', 'l', 'i', 's', 't'],
        "name"@ == seq!['n', 'a', 'm', 'e'],
        "piece length"@ == seq!['p', 'i', 'e', 'c', 'e', ' ', 'l', 'e', 'n', 'g', 't', 'h'],
        "pieces"@ == seq!['p', 'i', 'e', 'c', 'e', 's'],
        "length"@ == seq!['l', 'e', 'n', 'g', 't', 'h'],
        "files"@ == seq!['f', 'i', 'l', 'e', 's'],
        "private"@ == seq!['p', 'r', 'i', 'v', 'a', 't', 'e'],
        "path"@ == seq!['p', 'a', 't', 'h'],
        "failure reason"@ == seq![
            'f', 'a', 'i', 'l', 'u', 'r', 'e', ' ', 'r', 'e', 'a', 's', 'o', 'n',
        ],
        "interval"@ == seq!['i', 'n', 't', 'e', 'r', 'v', 'a', 'l'],
        "peers"@ == seq!['p', 'e', 'e', 'r', 's'],
        "peers6"@ == seq!['p', 'e', 'e', 'r', 's', '6'],
        "peer id"@ == seq!['p', 'e', 'e', 'r', ' ', 'i', 'd'],
        "ip"@ == seq!['i', 'p'],
        "port"@ == seq!['p', 'o', 'r', 't'],
{
    reveal_strlit("announce");
    reveal_strlit("announce-list");
    reveal_strlit("info");
    reveal_strlit("created by");
    reveal_strlit("creation date");
    reveal_strlit("comment");
    reveal_strlit("encoding");
    reveal_strlit("url-list");
    reveal_strlit("name");
    reveal_strlit("piece length");
    reveal_strlit("pieces");
    reveal_strlit("length");
    reveal_strlit("files");
    reveal_strlit("private");
    reveal_strlit("path");
    reveal_strlit("failure reason");
    reveal_strlit("interval");
    reveal_strlit("peers");
    reveal_strlit("peers6");
    reveal_strlit("peer id");
    reveal_strlit("ip");
    reveal_strlit("port");
    assert("announce"@ =~= seq!['a', 'n', 'n', 'o', 'u', 'n', 'c', 'e']);
    assert("announce-list"@ =~= seq![
        'a', 'n', 'n', 'o', 'u', 'n', 'c', 'e', '-', 'l', 'i', 's', 't',
    ]);
    assert("info"@ =~= seq!['i', 'n', 'f', 'o']);
    assert("created by"@ =~= seq!['c', 'r', 'e', 'a', 't', 'e', 'd', ' ', 'b', 'y']);
    assert("creation date"@ =~= seq![
        'c', 'r', 'e', 'a', 't', 'i', 'o', 'n', ' ', 'd', 'a', 't', 'e',
    ]);
    assert("comment"@ =~= seq!['c', 'o', 'm', 'm', 'e', 'n', 't']);
    assert("encoding"@ =~= seq!['e', 'n', 'c', 'o', 'd', 'i', 'n', 'g']);
    assert("url-list"@ =~= seq!['u', 'r', 'l', '-', 'l', 'i', 's', 't']);
    assert("name"@ =~= seq!['n', 'a', 'm', 'e']);
    assert("piece length"@ =~= seq![
        'p', 'i', 'e', 'c', 'e', ' ', 'l', 'e', 'n', 'g', 't', 'h',
    ]);
    assert("pieces"@ =~= seq!['p', 'i', 'e', 'c', 'e', 's']);
    assert("length"@ =~= seq!['l', 'e', 'n', 'g', 't', 'h']);
    assert("files"@ =~= seq!['f', 'i', 'l', 'e', 's']);
    assert("private"@ =~= seq!['p', 'r', 'i', 'v', 'a', 't', 'e']);
    assert("path"@ =~= seq!['p', 'a', 't', 'h']);
    assert("failure reason"@ =~= seq![
        'f', 'a', 'i', 'l', 'u', 'r', 'e', ' ', 'r', 'e', 'a', 's', 'o', 'n',
    ]);
    assert("interval"@ =~= seq!['i', 'n', 't', 'e', 'r', 'v', 'a', 'l']);
    assert("peers"@ =~= seq!['p', 'e', 'e', 'r', 's']);
    assert("peers6"@ =~= seq!['p', 'e', 'e', 'r', 's', '6']);
    assert("peer id"@ =~= seq!['p', 'e', 'e', 'r', ' ', 'i', 'd']);
    assert("ip"@ =~= seq!['i', 'p']);
    assert("port"@ =~= seq!['p', 'o', 'r', 't']);
}

/// The length, the first byte and the last byte of a key.
pub open spec fn signature(key: Seq<u8>) -> (nat, u8, u8) {
    (key.len(), key[0], key[key.len() - 1])
}

/// The length, the first byte and the last byte of the key of each field.
pub proof fn lemma_field_signature(field: Field)
    ensures
        signature(field.key()) == match field {
            Field::Announce => (8nat, 97u8, 101u8),
            Field::AnnounceList => (13nat, 97u8, 116u8),
            Field::Info => (4nat, 105u8, 111u8),
            Field::CreatedBy => (10nat, 99u8, 121u8),
            Field::CreationDate => (13nat, 99u8, 101u8),
            Field::Comment => (7nat, 99u8, 116u8),
            Field::Encoding => (8nat, 101u8, 103u8),
            Field::UrlList => (8nat, 117u8, 116u8),
            Field::Name => (4nat, 110u8, 101u8),
            Field::PieceLength => (12nat, 112u8, 104u8),
            Field::Pieces => (6nat, 112u8, 115u8),
            Field::Length => (6nat, 108u8, 104u8),
            Field::Files => (5nat, 102u8, 115u8),
            Field::Private => (7nat, 112u8, 101u8),
            Field::Path => (4nat, 112u8, 104u8),
            Field::FailureReason => (14nat, 102u8, 110u8),
            Field::Interval => (8nat, 105u8, 108u8),
            Field::Peers => (5nat, 112u8, 115u8),
            Field::Peers6 => (6nat, 112u8, 54u8),
            Field::PeerId => (7nat, 112u8, 100u8),
            Field::Ip => (2nat, 105u8, 112u8),
            Field::Port => (4nat, 112u8, 116u8),
        },
{
    reveal_field_names();
}

/// No two fields have the same key.
pub proof fn lemma_keys_differ(a: Field, b: Field)
    requires
        a != b,
    ensures
        a.key() != b.key(),
{
    lemma_field_signature(a);
    lemma_field_signature(b);
}

/// A value that does not have the structure the decoder asks for.
#[derive(Clone, Copy, Debug, PartialEq, Eq, Structural)]
pub enum SchemaError {
    /// A mandatory key is absent.
    MissingField(Field),
    /// A value has another shape than the one asked for.
    TypeMismatch { expected: Kind, found: Kind },
    /// A text field holds bytes that are not UTF-8.
    InvalidUtf8(Field),
    /// An info dictionary with both a length and files, or with neither.
    AmbiguousFileMode,
    /// The piece hashes do not make up a whole number of 20-byte values.
    InvalidPieceLength,
    /// A compact peer list whose length is no multiple of its entry size.
    InvalidCompactListLength { entry_size: u8, actual_length: u64 },
    /// An integer outside the range its field allows.
    OutOfRange(Field),
}

} // verus!
