//! The session with one tracker: its URL and what the last accepted announce
//! brought.

use crate::error::SchemaError;
use crate::text::{ascii_chars, decimal, decimal_text};
use crate::tracker::announce::{body_of, convert_body, converted, query_of};
use crate::tracker::{peers_view, AnnounceReq, AnnounceRsp, AnnounceRspView, Peer, PeerAddr};
use crate::tracker::{PeerAddrView, PeerView, TrackerError, TrackerResponseView};
use vstd::prelude::*;
use vstd::string::StringSliceAdditionalSpecFns;
use vstd::utf8::encode_utf8;

verus! {

/// Where a peer of the session can be reached.
#[derive(Debug, Clone, PartialEq, Eq)]
pub struct TrackerPeer {
    pub ip: PeerAddr,
    pub port: u16,
}

impl View for TrackerPeer {
    type V = (PeerAddrView, u16);

    open spec fn view(&self) -> (PeerAddrView, u16) {
        (self.ip@, self.port)
    }
}

/// A peer of the session under its key.
#[derive(Debug, Clone, PartialEq, Eq)]
pub struct PeerEntry {
    pub key: String,
    pub peer: TrackerPeer,
}

/// The session with a tracker. It starts idle, with no interval and no
/// peers; every accepted announce replaces both.
#[derive(Debug, PartialEq, Eq)]
pub struct Tracker {
    /// The URL of the tracker.
    pub url: String,
    /// The interval that the last accepted announce gave.
    pub interval: Option<u64>,
    /// The peers that the last accepted announce gave, in the order of the
    /// answer. Where a key occurs more than once, its last entry counts.
    pub peers: Option<Vec<PeerEntry>>,
}

/// The mapping that the first `n` entries make up: each key with the peer of
/// its last entry.
pub open spec fn entries_map(entries: Seq<PeerEntry>, n: nat) -> Map<
    Seq<char>,
    (PeerAddrView, u16),
>
    decreases n,
{
    if n == 0 || n > entries.len() {
        Map::empty()
    } else {
        entries_map(entries, (n - 1) as nat).insert(entries[n - 1].key@, entries[n - 1].peer@)
    }
}

/// The key of the peer at place `i` of an answer: its identity where it has
/// one, and else its place in decimal.
pub open spec fn peer_key(peer: PeerView, i: nat) -> Seq<char> {
    match peer.id {
        Some(id) => id,
        None => ascii_chars(decimal(i)),
    }
}

/// The mapping that the first `n` peers of an answer make up.
pub open spec fn peer_map(peers: Seq<PeerView>, n: nat) -> Map<Seq<char>, (PeerAddrView, u16)>
    decreases n,
{
    if n == 0 || n > peers.len() {
        Map::empty()
    } else {
        peer_map(peers, (n - 1) as nat).insert(
            peer_key(peers[n - 1], (n - 1) as nat),
            (peers[n - 1].ip, peers[n - 1].port),
        )
    }
}

/// Model of a [`Tracker`].
pub ghost struct TrackerView {
    pub url: Seq<char>,
    pub interval: Option<u64>,
    pub peers: Option<Map<Seq<char>, (PeerAddrView, u16)>>,
}

impl View for Tracker {
    type V = TrackerView;

    open spec fn view(&self) -> TrackerView {
        TrackerView {
            url: self.url@,
            interval: self.interval,
            peers: match self.peers {
                Some(entries) => Some(entries_map(entries@, entries@.len())),
                None => None,
            },
        }
    }
}

/// True for a status code that reports success: 200 to 299.
pub open spec fn is_success(status: u16) -> bool {
    200 <= status <= 299
}

/// The session after an accepted announce.
pub open spec fn accepted(before: TrackerView, rsp: AnnounceRspView) -> TrackerView {
    TrackerView {
        url: before.url,
        interval: Some(rsp.interval),
        peers: Some(peer_map(rsp.peers, rsp.peers.len())),
    }
}

/// The address to which an announce goes: the URL of the tracker, then `?`,
/// or `&` where the URL holds a `?` already, then the query.
pub open spec fn announce_address(url: Seq<char>, query: Seq<char>) -> Seq<char> {
    url + (if encode_utf8(url).contains(63u8) {
        seq!['&']
    } else {
        seq!['?']
    }) + query
}

/// The peers of an answer under their keys.
fn keyed(peers: &Vec<Peer>) -> (entries: Vec<PeerEntry>)
    ensures
        entries_map(entries@, entries@.len()) == peer_map(peers_view(peers@), peers@.len()),
{
    let ghost models = peers_view(peers@);
    let mut entries: Vec<PeerEntry> = Vec::new();
    let mut i: usize = 0;
    while i < peers.len()
        invariant
            i <= peers.len(),
            models == peers_view(peers@),
            entries@.len() == i,
            entries_map(entries@, i as nat) == peer_map(models, i as nat),
        decreases peers.len() - i,
    {
        let key = match &peers[i].id {
            Some(id) => id.clone(),
            None => decimal_text(i as u128),
        };
        assert(key@ == peer_key(models[i as int], i as nat));
        let ghost before = entries@;
        entries.push(
            PeerEntry { key, peer: TrackerPeer { ip: peers[i].ip.clone(), port: peers[i].port } },
        );
        proof {
            lemma_entries_map_prefix(before, entries@, i as nat);
        }
        i += 1;
    }
    entries
}

/// The mapping of the first `n` entries does not depend on what follows.
proof fn lemma_entries_map_prefix(a: Seq<PeerEntry>, b: Seq<PeerEntry>, n: nat)
    requires
        n <= a.len() <= b.len(),
        forall|i: int| 0 <= i < n ==> a[i] == b[i],
    ensures
        entries_map(a, n) == entries_map(b, n),
    decreases n,
{
    if n > 0 {
        lemma_entries_map_prefix(a, b, (n - 1) as nat);
    }
}

/// Where no entry from place `n` on has the key of the entry before place
/// `n`, that entry is what all the entries hold under its key.
proof fn lemma_last_entry_counts(entries: Seq<PeerEntry>, n: nat, m: nat)
    requires
        0 < n <= m <= entries.len(),
        forall|j: int| n <= j < m ==> (#[trigger] entries[j]).key@ != entries[n - 1].key@,
    ensures
        entries_map(entries, m).contains_key(entries[n - 1].key@),
        entries_map(entries, m)[entries[n - 1].key@] == entries[n - 1].peer@,
    decreases m - n,
{
    if m > n {
        assert(entries[m - 1].key@ != entries[n - 1].key@);
        lemma_last_entry_counts(entries, n, (m - 1) as nat);
    }
}

/// A key that no entry has is not in the mapping.
proof fn lemma_no_entry(entries: Seq<PeerEntry>, key: Seq<char>, m: nat)
    requires
        m <= entries.len(),
        forall|j: int| 0 <= j < m ==> (#[trigger] entries[j]).key@ != key,
    ensures
        !entries_map(entries, m).contains_key(key),
    decreases m,
{
    if m > 0 {
        assert(entries[m - 1].key@ != key);
        lemma_no_entry(entries, key, (m - 1) as nat);
    }
}

impl Tracker {
    /// A session with the tracker at `url`, idle.
    pub fn new(url: String) -> (tracker: Tracker)
        ensures
            tracker@ == (TrackerView { url: url@, interval: None, peers: None }),
    {
        Tracker { url, interval: None, peers: None }
    }

    /// The address to which the announce goes.
    pub fn announce_url(&self, req: &AnnounceReq) -> (address: String)
        ensures
            address@ == announce_address(self.url@, query_of(req@)),
    {
        proof {
            reveal_strlit("&");
            reveal_strlit("?");
        }
        let bytes = self.url.as_str().as_bytes();
        let mut holds_query = false;
        let mut i: usize = 0;
        while i < bytes.len()
            invariant
                i <= bytes.len(),
                holds_query == bytes@.take(i as int).contains(63u8),
            decreases bytes.len() - i,
        {
            proof {
                assert(bytes@.take(i + 1) =~= bytes@.take(i as int).push(bytes@[i as int]));
                if bytes@.take(i as int).contains(63u8) {
                    let k = choose|k: int|
                        0 <= k < bytes@.take(i as int).len() && bytes@.take(i as int)[k] == 63u8;
                    assert(bytes@.take(i + 1)[k] == 63u8);
                }
            }
            if bytes[i] == 63 {
                holds_query = true;
                assert(bytes@.take(i + 1)[i as int] == 63u8);
            }
            i += 1;
        }
        assert(bytes@.take(i as int) =~= bytes@);
        let mut address = self.url.clone();
        address.append(if holds_query { "&" } else { "?" });
        address.append(req.query_string().as_str());
        assert(address@ =~= announce_address(self.url@, query_of(req@)));
        address
    }

    /// The peer that the session holds under `key`, if it holds one.
    pub fn peer(&self, key: &str) -> (found: Option<&TrackerPeer>)
        ensures
            match found {
                Some(peer) => self@.peers matches Some(peers) && peers.contains_key(key@)
                    && peers[key@] == peer@,
                None => self@.peers matches Some(peers) ==> !peers.contains_key(key@),
            },
    {
        let entries = match &self.peers {
            Some(entries) => entries,
            None => return None,
        };
        let mut i: usize = entries.len();
        while i > 0
            invariant
                i <= entries.len(),
                self.peers == Some(*entries),
                forall|j: int| i <= j < entries@.len() ==> (#[trigger] entries@[j]).key@ != key@,
            decreases i,
        {
            i -= 1;
            let entry = &entries[i];
            proof {
                vstd::utf8::encode_utf8_decode_utf8(entry.key@);
                vstd::utf8::encode_utf8_decode_utf8(key@);
            }
            if crate::text::bytes_eq(entry.key.as_str().as_bytes(), key.as_bytes()) {
                proof {
                    lemma_last_entry_counts(entries@, (i + 1) as nat, entries@.len());
                }
                return Some(&entry.peer);
            }
        }
        proof {
            lemma_no_entry(entries@, key@, entries@.len());
        }
        None
    }

    /// Decodes the body of an answer. A refusal by the tracker is an error
    /// that carries the tracker's reason.
    pub fn convert_bytes(&self, bytes: &[u8]) -> (r: Result<AnnounceRsp, TrackerError>)
        ensures
            converted(bytes@, r),
    {
        convert_body(bytes)
    }

    /// Takes in the answer to an announce: the status code and the body that
    /// the transport brought. A status outside 200 to 299 is an error, and
    /// the body is then not looked at. An accepted announce replaces the
    /// interval and the peers of the session. After any error the session is
    /// as it was.
    pub fn announce(&mut self, status: u16, body: &[u8]) -> (r: Result<(), TrackerError>)
        ensures
            match r {
                Ok(()) => {
                    &&& is_success(status)
                    &&& body_of(body@) matches Some(Ok(TrackerResponseView::Success(rsp)))
                    &&& final(self)@ == accepted(old(self)@, rsp)
                    &&& final(self).url == old(self).url
                },
                Err(e) => {
                    &&& *final(self) == *old(self)
                    &&& match e {
                        TrackerError::InvalidStatus(code) => code == status && !is_success(status),
                        TrackerError::BencodeDecode(_) => is_success(status) && body_of(body@)
                            is None,
                        TrackerError::AnnounceFailed(reason) => is_success(status) && body_of(
                            body@,
                        ) == Some(
                            Ok::<TrackerResponseView, SchemaError>(
                                TrackerResponseView::Failure { failure_reason: reason@ },
                            ),
                        ),
                        TrackerError::Schema(e) => is_success(status) && body_of(body@) == Some(
                            Err::<TrackerResponseView, SchemaError>(e),
                        ),
                    }
                },
            },
    {
        if status < 200 || status > 299 {
            return Err(TrackerError::InvalidStatus(status));
        }
        let rsp = convert_body(body)?;
        let entries = keyed(&rsp.peers);
        self.interval = Some(rsp.interval);
        self.peers = Some(entries);
        Ok(())
    }
}

} // verus!
