//! Announcing to a tracker: the request, the response, and the session that
//! remembers the last answer.

use crate::bencode::{entries_view, Bencode, DictEntry};
use crate::error::SchemaError;
use crate::torrent::text_view;
use vstd::prelude::*;

pub mod announce;
pub mod parsing_modules;
pub mod session;

verus! {

/// The event that an announce reports.
#[derive(Debug, Clone, Copy, PartialEq, Eq, Structural)]
pub enum AnnounceEv {
    Started,
    Completed,
    Stopped,
    Empty,
}

impl Default for AnnounceEv {
    fn default() -> (event: AnnounceEv)
        ensures
            event == AnnounceEv::Empty,
    {
        AnnounceEv::Empty
    }
}

/// The parameters of an announce.
#[derive(Debug, Clone, PartialEq, Eq)]
pub struct AnnounceReq {
    /// The info-hash of the torrent: 20 bytes.
    pub info_hash: Vec<u8>,
    /// The identity that this client chose for itself.
    pub peer_id: String,
    /// The address of this client. Left out of the request when empty.
    pub ip: String,
    /// The port on which this client listens.
    pub port: u16,
    /// The number of bytes sent so far, in decimal.
    pub uploaded: String,
    /// The number of bytes received so far, in decimal.
    pub downloaded: String,
    /// The number of bytes still to receive, in decimal.
    pub left: String,
    /// What the announce reports.
    pub event: AnnounceEv,
    /// Whether the tracker is asked for the compact peer list.
    pub compact: bool,
}

/// Model of an [`AnnounceReq`].
pub ghost struct AnnounceReqView {
    pub info_hash: Seq<u8>,
    pub peer_id: Seq<char>,
    pub ip: Seq<char>,
    pub port: u16,
    pub uploaded: Seq<char>,
    pub downloaded: Seq<char>,
    pub left: Seq<char>,
    pub event: AnnounceEv,
    pub compact: bool,
}

impl View for AnnounceReq {
    type V = AnnounceReqView;

    open spec fn view(&self) -> AnnounceReqView {
        AnnounceReqView {
            info_hash: self.info_hash@,
            peer_id: self.peer_id@,
            ip: self.ip@,
            port: self.port,
            uploaded: self.uploaded@,
            downloaded: self.downloaded@,
            left: self.left@,
            event: self.event,
            compact: self.compact,
        }
    }
}

impl Default for AnnounceReq {
    fn default() -> (req: AnnounceReq)
        ensures
            req@ == (AnnounceReqView {
                info_hash: Seq::empty(),
                peer_id: Seq::empty(),
                ip: Seq::empty(),
                port: 0,
                uploaded: Seq::empty(),
                downloaded: Seq::empty(),
                left: Seq::empty(),
                event: AnnounceEv::Empty,
                compact: false,
            }),
    {
        AnnounceReq {
            info_hash: Vec::new(),
            peer_id: String::new(),
            ip: String::new(),
            port: 0,
            uploaded: String::new(),
            downloaded: String::new(),
            left: String::new(),
            event: AnnounceEv::Empty,
            compact: false,
        }
    }
}

/// Where a peer can be reached. A compact peer list holds addresses; the
/// other form of the list holds text, an address or a host name, which is
/// kept as the tracker wrote it.
#[derive(Debug, PartialEq, Eq)]
pub enum PeerAddr {
    V4([u8; 4]),
    V6([u8; 16]),
    Name(String),
}

/// Model of a [`PeerAddr`].
pub ghost enum PeerAddrView {
    V4(Seq<u8>),
    V6(Seq<u8>),
    Name(Seq<char>),
}

impl View for PeerAddr {
    type V = PeerAddrView;

    open spec fn view(&self) -> PeerAddrView {
        match self {
            PeerAddr::V4(octets) => PeerAddrView::V4(octets@),
            PeerAddr::V6(octets) => PeerAddrView::V6(octets@),
            PeerAddr::Name(name) => PeerAddrView::Name(name@),
        }
    }
}

impl Clone for PeerAddr {
    fn clone(&self) -> (copy: PeerAddr)
        ensures
            copy@ == self@,
    {
        match self {
            PeerAddr::V4(octets) => PeerAddr::V4(*octets),
            PeerAddr::V6(octets) => PeerAddr::V6(*octets),
            PeerAddr::Name(name) => PeerAddr::Name(name.clone()),
        }
    }
}

/// A peer that the tracker knows of.
#[derive(Debug, PartialEq, Eq)]
pub struct Peer {
    /// The identity of the peer. A compact peer list gives none.
    pub id: Option<String>,
    /// The address of the peer.
    pub ip: PeerAddr,
    /// The port on which the peer listens.
    pub port: u16,
}

/// Model of a [`Peer`].
pub ghost struct PeerView {
    pub id: Option<Seq<char>>,
    pub ip: PeerAddrView,
    pub port: u16,
}

impl View for Peer {
    type V = PeerView;

    open spec fn view(&self) -> PeerView {
        PeerView { id: text_view(self.id), ip: self.ip@, port: self.port }
    }
}

impl Clone for Peer {
    fn clone(&self) -> (copy: Peer)
        ensures
            copy@ == self@,
    {
        let id = match &self.id {
            Some(id) => Some(id.clone()),
            None => None,
        };
        Peer { id, ip: self.ip.clone(), port: self.port }
    }
}

/// The models of the peers of a list, in order.
pub open spec fn peers_view(peers: Seq<Peer>) -> Seq<PeerView> {
    Seq::new(peers.len(), |i: int| peers[i]@)
}

/// What a tracker answers to an announce that it accepts.
#[derive(Debug, PartialEq, Eq)]
pub struct AnnounceRsp {
    /// The number of seconds to wait before the next announce.
    pub interval: u64,
    /// The peers: those with an IPv4 address or a name first, then those with
    /// an IPv6 address.
    pub peers: Vec<Peer>,
    /// The entries that the schema does not name, in the order of their keys.
    pub additional_fields: Vec<DictEntry>,
}

/// Model of an [`AnnounceRsp`].
pub ghost struct AnnounceRspView {
    pub interval: u64,
    pub peers: Seq<PeerView>,
    pub additional_fields: Seq<(Seq<u8>, Bencode)>,
}

impl View for AnnounceRsp {
    type V = AnnounceRspView;

    open spec fn view(&self) -> AnnounceRspView {
        AnnounceRspView {
            interval: self.interval,
            peers: peers_view(self.peers@),
            additional_fields: entries_view(self.additional_fields@),
        }
    }
}

/// The body of a tracker's answer: a refusal with its reason, or a peer list.
#[derive(Debug, PartialEq, Eq)]
pub enum TrackerResponse {
    Failure { failure_reason: String },
    Success(AnnounceRsp),
}

/// Model of a [`TrackerResponse`].
pub ghost enum TrackerResponseView {
    Failure { failure_reason: Seq<char> },
    Success(AnnounceRspView),
}

impl View for TrackerResponse {
    type V = TrackerResponseView;

    open spec fn view(&self) -> TrackerResponseView {
        match self {
            TrackerResponse::Failure { failure_reason } => TrackerResponseView::Failure {
                failure_reason: failure_reason@,
            },
            TrackerResponse::Success(rsp) => TrackerResponseView::Success(rsp@),
        }
    }
}

/// Why an announce did not yield a peer list.
#[derive(Debug)]
pub enum TrackerError {
    /// The body of the answer is not bencode.
    BencodeDecode(bendy::decoding::Error),
    /// The body of the answer does not have the structure of a response.
    Schema(SchemaError),
    /// The status code of the answer is outside the range of success.
    InvalidStatus(u16),
    /// The tracker refused the announce and gave this reason.
    AnnounceFailed(String),
}

} // verus!
