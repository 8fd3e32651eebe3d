//! The metadata that a torrent file holds.

use crate::bencode::{entries_view, Bencode, DictEntry};
use crate::error::SchemaError;
use crate::schema::texts_view;
use vstd::prelude::*;

pub mod files;
pub mod info;
pub mod laws;
pub mod metadata;
pub mod metadata_laws;
pub mod pieces;

verus! {

/// One file of a torrent that holds several.
#[derive(Debug, Clone, PartialEq, Eq)]
pub struct TorrentFile {
    /// The segments of the path, outermost directory first. They are joined
    /// with `/` for display only.
    pub path: Vec<String>,
    /// The size of the file in bytes.
    pub length: i64,
}

/// Model of a [`TorrentFile`].
pub ghost struct TorrentFileView {
    pub path: Seq<Seq<char>>,
    pub length: i64,
}

impl View for TorrentFile {
    type V = TorrentFileView;

    open spec fn view(&self) -> TorrentFileView {
        TorrentFileView { path: texts_view(self.path@), length: self.length }
    }
}

/// The first `n` segments of a path with `/` between them.
pub open spec fn joined_path(path: Seq<Seq<char>>, n: nat) -> Seq<char>
    decreases n,
{
    if n == 0 || n > path.len() {
        Seq::empty()
    } else if n == 1 {
        path[0]
    } else {
        joined_path(path, (n - 1) as nat) + seq!['/'] + path[n - 1]
    }
}

impl TorrentFile {
    /// The path for display: its segments with `/` between them.
    pub fn display_path(&self) -> (shown: String)
        ensures
            shown@ == joined_path(self@.path, self@.path.len()),
    {
        proof {
            reveal_strlit("/");
        }
        let mut shown = String::new();
        let mut i: usize = 0;
        while i < self.path.len()
            invariant
                i <= self.path.len(),
                shown@ == joined_path(texts_view(self.path@), i as nat),
                "/"@ == seq!['/'],
            decreases self.path.len() - i,
        {
            if i > 0 {
                shown.append("/");
            }
            shown.append(self.path[i].as_str());
            i += 1;
            assert(shown@ =~= joined_path(texts_view(self.path@), i as nat));
        }
        shown
    }
}

/// The models of the files of a list, in order.
pub open spec fn files_view(files: Seq<TorrentFile>) -> Seq<TorrentFileView> {
    Seq::new(files.len(), |i: int| files[i]@)
}

/// What a torrent describes: one file, or several files under a directory.
#[derive(Debug, Clone, PartialEq, Eq)]
pub enum FileMode {
    SingleFile { length: i64 },
    MultiFile { files: Vec<TorrentFile> },
}

/// Model of a [`FileMode`].
pub ghost enum FileModeView {
    SingleFile { length: i64 },
    MultiFile { files: Seq<TorrentFileView> },
}

impl View for FileMode {
    type V = FileModeView;

    open spec fn view(&self) -> FileModeView {
        match self {
            FileMode::SingleFile { length } => FileModeView::SingleFile { length: *length },
            FileMode::MultiFile { files } => FileModeView::MultiFile { files: files_view(files@) },
        }
    }
}

/// The fields of an info dictionary beyond those that every torrent has.
#[derive(Debug, PartialEq, Eq)]
pub struct TorrentInfoAdditionalFields {
    /// The torrent is meant for a private tracker only.
    pub private: bool,
    /// The entries that the schema does not name, in the order of their keys.
    pub extra_fields: Vec<DictEntry>,
}

/// The info dictionary: what is hashed to identify the torrent.
#[derive(Debug, PartialEq, Eq)]
pub struct TorrentInfo {
    /// The suggested name of the file or of the directory.
    pub name: String,
    /// The number of bytes in each piece.
    pub piece_length: i64,
    /// The SHA-1 hash of each piece.
    pub pieces: Vec<[u8; 20]>,
    /// The file or the files.
    pub mode: FileMode,
    /// The fields beyond these.
    pub additional_fields: TorrentInfoAdditionalFields,
}

/// Model of a [`TorrentInfo`].
pub ghost struct TorrentInfoView {
    pub name: Seq<char>,
    pub piece_length: i64,
    pub pieces: Seq<Seq<u8>>,
    pub mode: FileModeView,
    pub private: bool,
    pub extra_fields: Seq<(Seq<u8>, Bencode)>,
}

/// The bytes of each hash of a list.
pub open spec fn pieces_view(pieces: Seq<[u8; 20]>) -> Seq<Seq<u8>> {
    Seq::new(pieces.len(), |i: int| pieces[i]@)
}

impl View for TorrentInfo {
    type V = TorrentInfoView;

    open spec fn view(&self) -> TorrentInfoView {
        TorrentInfoView {
            name: self.name@,
            piece_length: self.piece_length,
            pieces: pieces_view(self.pieces@),
            mode: self.mode@,
            private: self.additional_fields.private,
            extra_fields: entries_view(self.additional_fields.extra_fields@),
        }
    }
}

/// The fields of a torrent file beyond the tracker and the info dictionary.
#[derive(Debug, PartialEq, Eq)]
pub struct RootAdditionalFields {
    /// Who or what made the torrent.
    pub created_by: Option<String>,
    /// When the torrent was made, in seconds since the epoch.
    pub creation_date: Option<i64>,
    /// A remark about the torrent.
    pub comment: Option<String>,
    /// The encoding of the texts in the info dictionary.
    pub encoding: Option<String>,
    /// Where the data can be had over HTTP.
    pub url_list: Vec<String>,
    /// The entries that the schema does not name, in the order of their keys.
    pub extra_fields: Vec<DictEntry>,
}

/// The metadata of a torrent.
#[derive(Debug, PartialEq, Eq)]
pub struct Torrent {
    /// The URL of the tracker.
    pub announce: String,
    /// The URLs of further trackers.
    pub announce_list: Vec<String>,
    /// What the torrent holds.
    pub info: TorrentInfo,
    /// The fields beyond these.
    pub additional_fields: RootAdditionalFields,
}

/// Model of a [`Torrent`].
pub ghost struct TorrentView {
    pub announce: Seq<char>,
    pub announce_list: Seq<Seq<char>>,
    pub info: TorrentInfoView,
    pub created_by: Option<Seq<char>>,
    pub creation_date: Option<i64>,
    pub comment: Option<Seq<char>>,
    pub encoding: Option<Seq<char>>,
    pub url_list: Seq<Seq<char>>,
    pub extra_fields: Seq<(Seq<u8>, Bencode)>,
}

/// The characters of a text that may be absent.
pub open spec fn text_view(text: Option<String>) -> Option<Seq<char>> {
    match text {
        Some(text) => Some(text@),
        None => None,
    }
}

impl View for Torrent {
    type V = TorrentView;

    open spec fn view(&self) -> TorrentView {
        TorrentView {
            announce: self.announce@,
            announce_list: texts_view(self.announce_list@),
            info: self.info@,
            created_by: text_view(self.additional_fields.created_by),
            creation_date: self.additional_fields.creation_date,
            comment: text_view(self.additional_fields.comment),
            encoding: text_view(self.additional_fields.encoding),
            url_list: texts_view(self.additional_fields.url_list@),
            extra_fields: entries_view(self.additional_fields.extra_fields@),
        }
    }
}

/// Why the bytes of a torrent file did not yield a torrent.
#[derive(Debug)]
pub enum TorrentError {
    /// The bytes are not bencode.
    ParseTorrent(bendy::decoding::Error),
    /// The value does not have the structure of a torrent file.
    Schema(SchemaError),
}

} // verus!
