//! The announce request as query parameters, and the decoding of the
//! tracker's answer.

use crate::bencode::{entries_view, items_view, lookup, Bencode, BencodeValue, DictEntry};
use crate::decoding::{decode, parse};
use crate::error::{Field, Kind, SchemaError};
use crate::schema::{collect, lemma_collect_error, lemma_collect_step};
use crate::schema::{extra_entries, find, find_required_int, find_required_text, find_text};
use crate::schema::{optional_text, required_int, required_text, text_of, unnamed};
use crate::text::{ascii_bytes, ascii_chars, decimal, decimal_int, decimal_int_text, decimal_text};
use crate::torrent::metadata::{info_hash_of, total_length};
use crate::torrent::{Torrent, TorrentView};
use crate::tracker::parsing_modules::{compact_peers_v4, compact_peers_v6};
use crate::tracker::parsing_modules::{deserialize_ipv4, deserialize_ipv6};
use crate::tracker::parsing_modules::{escaped, serialize_bytes_urlencoded};
use crate::tracker::{peers_view, AnnounceEv, AnnounceReq, AnnounceReqView, AnnounceRsp};
use crate::tracker::{AnnounceRspView, Peer, PeerAddr, PeerAddrView, PeerView};
use crate::tracker::{TrackerError, TrackerResponse, TrackerResponseView};
use vstd::prelude::*;
use vstd::string::StringSliceAdditionalSpecFns;
use vstd::utf8::encode_utf8;

verus! {

impl AnnounceEv {
    /// The word that stands for the event in a request.
    pub open spec fn name(self) -> Seq<char> {
        match self {
            AnnounceEv::Started => "started"@,
            AnnounceEv::Completed => "completed"@,
            AnnounceEv::Stopped => "stopped"@,
            AnnounceEv::Empty => "empty"@,
        }
    }

    /// The word that stands for the event in a request.
    pub fn as_str(self) -> (name: &'static str)
        ensures
            name@ == self.name(),
            name.is_ascii(),
    {
        proof {
            reveal_strlit("started");
            reveal_strlit("completed");
            reveal_strlit("stopped");
            reveal_strlit("empty");
        }
        match self {
            AnnounceEv::Started => "started",
            AnnounceEv::Completed => "completed",
            AnnounceEv::Stopped => "stopped",
            AnnounceEv::Empty => "empty",
        }
    }
}

/// The names of the parameters of an announce.
#[derive(Debug, Clone, Copy, PartialEq, Eq, Structural)]
pub enum ParamName {
    InfoHash,
    PeerId,
    Ip,
    Port,
    Uploaded,
    Downloaded,
    Left,
    Event,
    Compact,
}

impl ParamName {
    /// The name as it is written in a query.
    pub open spec fn name(self) -> Seq<char> {
        match self {
            ParamName::InfoHash => "info_hash"@,
            ParamName::PeerId => "peer_id"@,
            ParamName::Ip => "ip"@,
            ParamName::Port => "port"@,
            ParamName::Uploaded => "uploaded"@,
            ParamName::Downloaded => "downloaded"@,
            ParamName::Left => "left"@,
            ParamName::Event => "event"@,
            ParamName::Compact => "compact"@,
        }
    }

    /// The bytes of the name.
    pub open spec fn key(self) -> Seq<u8> {
        ascii_bytes(self.name())
    }

    /// The name as it is written in a query.
    pub fn as_str(self) -> (name: &'static str)
        ensures
            name@ == self.name(),
            name.is_ascii(),
    {
        proof {
            reveal_strlit("info_hash");
            reveal_strlit("peer_id");
            reveal_strlit("ip");
            reveal_strlit("port");
            reveal_strlit("uploaded");
            reveal_strlit("downloaded");
            reveal_strlit("left");
            reveal_strlit("event");
            reveal_strlit("compact");
        }
        match self {
            ParamName::InfoHash => "info_hash",
            ParamName::PeerId => "peer_id",
            ParamName::Ip => "ip",
            ParamName::Port => "port",
            ParamName::Uploaded => "uploaded",
            ParamName::Downloaded => "downloaded",
            ParamName::Left => "left",
            ParamName::Event => "event",
            ParamName::Compact => "compact",
        }
    }
}

/// One parameter of a query: its name, and its value as it is written.
#[derive(Debug, Clone, PartialEq, Eq)]
pub struct QueryParam {
    pub name: String,
    pub value: String,
}

impl View for QueryParam {
    type V = (Seq<char>, Seq<char>);

    open spec fn view(&self) -> (Seq<char>, Seq<char>) {
        (self.name@, self.value@)
    }
}

/// The parameters of a list, each as its name and its value.
pub open spec fn params_view(params: Seq<QueryParam>) -> Seq<(Seq<char>, Seq<char>)> {
    Seq::new(params.len(), |i: int| params[i]@)
}

/// A text as it is written in a query: its UTF-8 bytes, escaped.
pub open spec fn escaped_text(text: Seq<char>) -> Seq<char> {
    ascii_chars(escaped(encode_utf8(text)))
}

/// The parameters of an announce, in the order in which they are sent. The
/// info-hash and the texts are escaped; the address is left out when it is
/// empty; the port is written in decimal, the event by its word, and the
/// wish for a compact list as `1` or `0`.
pub open spec fn params_of(req: AnnounceReqView) -> Seq<(Seq<char>, Seq<char>)> {
    let head = seq![
        (ParamName::InfoHash.name(), ascii_chars(escaped(req.info_hash))),
        (ParamName::PeerId.name(), escaped_text(req.peer_id)),
    ];
    let address = if req.ip.len() == 0 {
        Seq::empty()
    } else {
        seq![(ParamName::Ip.name(), escaped_text(req.ip))]
    };
    let tail = seq![
        (ParamName::Port.name(), ascii_chars(decimal(req.port as nat))),
        (ParamName::Uploaded.name(), escaped_text(req.uploaded)),
        (ParamName::Downloaded.name(), escaped_text(req.downloaded)),
        (ParamName::Left.name(), escaped_text(req.left)),
        (ParamName::Event.name(), req.event.name()),
        (ParamName::Compact.name(), if req.compact { seq!['1'] } else { seq!['0'] }),
    ];
    head + address + tail
}

/// The first `n` parameters as a query: each name, `=` and the value, with
/// `&` between one parameter and the next.
pub open spec fn joined(params: Seq<(Seq<char>, Seq<char>)>, n: nat) -> Seq<char>
    decreases n,
{
    if n == 0 || n > params.len() {
        Seq::empty()
    } else if n == 1 {
        params[0].0 + seq!['='] + params[0].1
    } else {
        joined(params, (n - 1) as nat) + seq!['&'] + params[n - 1].0 + seq!['='] + params[n
            - 1].1
    }
}

/// The query of an announce.
pub open spec fn query_of(req: AnnounceReqView) -> Seq<char> {
    joined(params_of(req), params_of(req).len())
}

/// Adds a parameter with the given name and value to the list.
fn add_param(params: &mut Vec<QueryParam>, name: ParamName, value: String)
    ensures
        params_view(final(params)@) == params_view(old(params)@).push((name.name(), value@)),
{
    let mut name_text = String::new();
    name_text.append(name.as_str());
    assert(name_text@ =~= name.name());
    params.push(QueryParam { name: name_text, value });
    assert(params_view(final(params)@) =~= params_view(old(params)@).push((name.name(), value@)));
}

/// The word of an event as a text of its own.
fn event_word(event: AnnounceEv) -> (word: String)
    ensures
        word@ == event.name(),
{
    let mut word = String::new();
    word.append(event.as_str());
    assert(word@ =~= event.name());
    word
}

/// The digit that stands for a flag.
fn flag_digit(flag: bool) -> (digit: String)
    ensures
        digit@ == (if flag { seq!['1'] } else { seq!['0'] }),
{
    proof {
        reveal_strlit("1");
        reveal_strlit("0");
    }
    let mut digit = String::new();
    digit.append(if flag { "1" } else { "0" });
    assert(digit@ =~= (if flag { seq!['1'] } else { seq!['0'] }));
    digit
}

impl AnnounceReq {
    /// The parameters of the request, in the order in which they are sent.
    pub fn query_params(&self) -> (params: Vec<QueryParam>)
        ensures
            params_view(params@) == params_of(self@),
    {
        let mut params: Vec<QueryParam> = Vec::new();
        assert(params_view(params@) =~= Seq::empty());
        add_param(
            &mut params,
            ParamName::InfoHash,
            serialize_bytes_urlencoded(self.info_hash.as_slice()),
        );
        add_param(
            &mut params,
            ParamName::PeerId,
            serialize_bytes_urlencoded(self.peer_id.as_str().as_bytes()),
        );
        if !crate::skip_empty::string(&self.ip) {
            add_param(
                &mut params,
                ParamName::Ip,
                serialize_bytes_urlencoded(self.ip.as_str().as_bytes()),
            );
        }
        add_param(&mut params, ParamName::Port, decimal_text(self.port as u128));
        add_param(
            &mut params,
            ParamName::Uploaded,
            serialize_bytes_urlencoded(self.uploaded.as_str().as_bytes()),
        );
        add_param(
            &mut params,
            ParamName::Downloaded,
            serialize_bytes_urlencoded(self.downloaded.as_str().as_bytes()),
        );
        add_param(
            &mut params,
            ParamName::Left,
            serialize_bytes_urlencoded(self.left.as_str().as_bytes()),
        );
        add_param(&mut params, ParamName::Event, event_word(self.event));
        add_param(&mut params, ParamName::Compact, flag_digit(self.compact));
        assert(params_view(params@) =~= params_of(self@));
        params
    }

    /// The query of the request: the parameters joined with `&`.
    pub fn query_string(&self) -> (query: String)
        ensures
            query@ == query_of(self@),
    {
        proof {
            reveal_strlit("=");
            reveal_strlit("&");
        }
        let params = self.query_params();
        let ghost all = params_view(params@);
        let mut query = String::new();
        let mut i: usize = 0;
        while i < params.len()
            invariant
                i <= params.len(),
                all == params_view(params@),
                query@ == joined(all, i as nat),
                "="@ == seq!['='],
                "&"@ == seq!['&'],
            decreases params.len() - i,
        {
            if i > 0 {
                query.append("&");
            }
            query.append(params[i].name.as_str());
            query.append("=");
            query.append(params[i].value.as_str());
            i += 1;
            assert(query@ =~= joined(all, i as nat));
        }
        query
    }
}

/// The peer that a dictionary of the long form of the peer list describes:
/// an identity under `peer id`, which may be absent, the address as text
/// under `ip`, and under `port` an integer from 0 to 65535. The checks are
/// made in this order.
pub open spec fn peer_of(value: Bencode) -> Result<PeerView, SchemaError> {
    match value {
        Bencode::Dict(entries) => match optional_text(entries, Field::PeerId) {
            Err(e) => Err(e),
            Ok(id) => match required_text(entries, Field::Ip) {
                Err(e) => Err(e),
                Ok(ip) => match required_int(entries, Field::Port) {
                    Err(e) => Err(e),
                    Ok(port) => if 0 <= port <= 65535 {
                        Ok(PeerView { id, ip: PeerAddrView::Name(ip), port: port as u16 })
                    } else {
                        Err(SchemaError::OutOfRange(Field::Port))
                    },
                },
            },
        },
        _ => Err(SchemaError::TypeMismatch { expected: Kind::Dict, found: value.kind() }),
    }
}

/// The peers under `peers`: a list of dictionaries in the long form, a byte
/// string of IPv4 peers in the compact form. Which form it is shows in the
/// shape of the value.
pub open spec fn listed_peers(value: Bencode) -> Result<Seq<PeerView>, SchemaError> {
    match value {
        Bencode::List(items) => collect(Seq::new(items.len(), |i: int| peer_of(items[i]))),
        Bencode::Bytes(bytes) => compact_peers_v4(bytes),
        _ => Err(SchemaError::TypeMismatch { expected: Kind::List, found: value.kind() }),
    }
}

/// The peers under `peers6`: a byte string of IPv6 peers.
pub open spec fn listed_peers6(value: Bencode) -> Result<Seq<PeerView>, SchemaError> {
    match value {
        Bencode::Bytes(bytes) => compact_peers_v6(bytes),
        _ => Err(SchemaError::TypeMismatch { expected: Kind::Bytes, found: value.kind() }),
    }
}

/// The peers of a response: those under `peers`, then those under `peers6`.
/// One of the two keys must be there.
pub open spec fn all_peers(entries: Seq<(Seq<u8>, Bencode)>) -> Result<Seq<PeerView>, SchemaError> {
    match (lookup(entries, Field::Peers.key()), lookup(entries, Field::Peers6.key())) {
        (None, None) => Err(SchemaError::MissingField(Field::Peers)),
        (Some(peers), None) => listed_peers(peers),
        (None, Some(peers6)) => listed_peers6(peers6),
        (Some(peers), Some(peers6)) => match listed_peers(peers) {
            Err(e) => Err(e),
            Ok(first) => match listed_peers6(peers6) {
                Err(e) => Err(e),
                Ok(second) => Ok(first + second),
            },
        },
    }
}

/// The keys of a response that the schema names.
pub open spec fn response_fields() -> Seq<Field> {
    seq![Field::FailureReason, Field::Interval, Field::Peers, Field::Peers6]
}

/// The response that a value holds. A dictionary with the key
/// `failure reason` is a refusal, whatever else it holds. Any other
/// dictionary must hold the interval, which must not be negative, and the
/// peers; the entries under other keys are kept as they are.
pub open spec fn response_of(value: Bencode) -> Result<TrackerResponseView, SchemaError> {
    match value {
        Bencode::Dict(entries) => match lookup(entries, Field::FailureReason.key()) {
            Some(reason) => match text_of(reason, Field::FailureReason) {
                Ok(failure_reason) => Ok(TrackerResponseView::Failure { failure_reason }),
                Err(e) => Err(e),
            },
            None => match required_int(entries, Field::Interval) {
                Err(e) => Err(e),
                Ok(interval) => if interval < 0 {
                    Err(SchemaError::OutOfRange(Field::Interval))
                } else {
                    match all_peers(entries) {
                        Err(e) => Err(e),
                        Ok(peers) => Ok(
                            TrackerResponseView::Success(
                                AnnounceRspView {
                                    interval: interval as u64,
                                    peers,
                                    additional_fields: unnamed(entries, response_fields()),
                                },
                            ),
                        ),
                    }
                },
            },
        },
        _ => Err(SchemaError::TypeMismatch { expected: Kind::Dict, found: value.kind() }),
    }
}

/// Reads one peer of the long form of the peer list.
pub fn decode_peer(value: &BencodeValue) -> (r: Result<Peer, SchemaError>)
    ensures
        match r {
            Ok(peer) => peer_of(value@) == Ok::<PeerView, SchemaError>(peer@),
            Err(e) => peer_of(value@) == Err::<PeerView, SchemaError>(e),
        },
{
    let entries = value.expect_dict()?;
    let id = find_text(entries, Field::PeerId)?;
    let ip = find_required_text(entries, Field::Ip)?;
    let port = find_required_int(entries, Field::Port)?;
    if port < 0 || port > 65535 {
        return Err(SchemaError::OutOfRange(Field::Port));
    }
    Ok(Peer { id, ip: PeerAddr::Name(ip), port: port as u16 })
}

/// Reads the peers under `peers`, in whichever form they are.
pub fn decode_peers(value: &BencodeValue) -> (r: Result<Vec<Peer>, SchemaError>)
    ensures
        match r {
            Ok(peers) => listed_peers(value@) == Ok::<Seq<PeerView>, SchemaError>(
                peers_view(peers@),
            ),
            Err(e) => listed_peers(value@) == Err::<Seq<PeerView>, SchemaError>(e),
        },
{
    match value {
        BencodeValue::Bytes(bytes) => deserialize_ipv4(bytes.as_slice()),
        BencodeValue::List(_) => {
            let items = value.expect_list()?;
            let ghost models = items_view(items@);
            let ghost results = Seq::new(models.len(), |i: int| peer_of(models[i]));
            let mut peers: Vec<Peer> = Vec::new();
            let mut i: usize = 0;
            assert(results.take(0) =~= Seq::empty());
            assert(peers_view(peers@) =~= Seq::empty());
            while i < items.len()
                invariant
                    i <= items.len(),
                    models == items_view(items@),
                    results == Seq::new(models.len(), |i: int| peer_of(models[i])),
                    collect(results.take(i as int)) == Ok::<Seq<PeerView>, SchemaError>(
                        peers_view(peers@),
                    ),
                    value@ == Bencode::List(models),
                decreases items.len() - i,
            {
                proof {
                    lemma_collect_step(results, i as int);
                }
                match decode_peer(&items[i]) {
                    Ok(peer) => {
                        let ghost before = peers_view(peers@);
                        peers.push(peer);
                        assert(peers_view(peers@) =~= before.push(peer@));
                    },
                    Err(e) => {
                        proof {
                            lemma_collect_error(results, i as int + 1);
                        }
                        return Err(e);
                    },
                }
                i += 1;
            }
            assert(results.take(i as int) =~= results);
            Ok(peers)
        },
        _ => Err(SchemaError::TypeMismatch { expected: Kind::List, found: value.kind() }),
    }
}

/// Reads the peers under `peers6`.
pub fn decode_peers6(value: &BencodeValue) -> (r: Result<Vec<Peer>, SchemaError>)
    ensures
        match r {
            Ok(peers) => listed_peers6(value@) == Ok::<Seq<PeerView>, SchemaError>(
                peers_view(peers@),
            ),
            Err(e) => listed_peers6(value@) == Err::<Seq<PeerView>, SchemaError>(e),
        },
{
    let bytes = value.expect_bytes()?;
    deserialize_ipv6(bytes.as_slice())
}

/// Reads the peers of a response from its entries.
pub fn decode_all_peers(entries: &Vec<DictEntry>) -> (r: Result<Vec<Peer>, SchemaError>)
    ensures
        match r {
            Ok(peers) => all_peers(entries_view(entries@)) == Ok::<Seq<PeerView>, SchemaError>(
                peers_view(peers@),
            ),
            Err(e) => all_peers(entries_view(entries@)) == Err::<Seq<PeerView>, SchemaError>(e),
        },
{
    match (find(entries, Field::Peers), find(entries, Field::Peers6)) {
        (None, None) => Err(SchemaError::MissingField(Field::Peers)),
        (Some(peers), None) => decode_peers(peers),
        (None, Some(peers6)) => decode_peers6(peers6),
        (Some(peers), Some(peers6)) => {
            let mut first = decode_peers(peers)?;
            let mut second = decode_peers6(peers6)?;
            let ghost a = peers_view(first@);
            let ghost b = peers_view(second@);
            first.append(&mut second);
            assert(peers_view(first@) =~= a + b);
            Ok(first)
        },
    }
}

/// The keys of a response that the schema names.
fn known_response_fields() -> (fields: Vec<Field>)
    ensures
        fields@ == response_fields(),
{
    let mut fields: Vec<Field> = Vec::new();
    fields.push(Field::FailureReason);
    fields.push(Field::Interval);
    fields.push(Field::Peers);
    fields.push(Field::Peers6);
    assert(fields@ =~= response_fields());
    fields
}

/// Reads the body of a tracker's answer from its value tree.
pub fn decode_response(value: &BencodeValue) -> (r: Result<TrackerResponse, SchemaError>)
    ensures
        match r {
            Ok(response) => response_of(value@) == Ok::<TrackerResponseView, SchemaError>(
                response@,
            ),
            Err(e) => response_of(value@) == Err::<TrackerResponseView, SchemaError>(e),
        },
{
    let entries = value.expect_dict()?;
    match find(entries, Field::FailureReason) {
        Some(reason) => {
            let failure_reason = crate::schema::expect_text(reason, Field::FailureReason)?;
            Ok(TrackerResponse::Failure { failure_reason })
        },
        None => {
            let interval = find_required_int(entries, Field::Interval)?;
            if interval < 0 {
                return Err(SchemaError::OutOfRange(Field::Interval));
            }
            let peers = decode_all_peers(entries)?;
            let additional_fields = extra_entries(entries, &known_response_fields());
            Ok(
                TrackerResponse::Success(
                    AnnounceRsp { interval: interval as u64, peers, additional_fields },
                ),
            )
        },
    }
}

/// What the body of an answer holds: nothing where it is not bencode, and
/// else the response, or the error in its structure.
pub open spec fn body_of(bytes: Seq<u8>) -> Option<Result<TrackerResponseView, SchemaError>> {
    match parse(bytes) {
        Some(value) => Some(response_of(value)),
        None => None,
    }
}

/// What `r` owes to the body of an answer: the peer list of a response that
/// has one, and else the error that says why there is none.
pub open spec fn converted(bytes: Seq<u8>, r: Result<AnnounceRsp, TrackerError>) -> bool {
    match r {
        Ok(rsp) => body_of(bytes) == Some(
            Ok::<TrackerResponseView, SchemaError>(TrackerResponseView::Success(rsp@)),
        ),
        Err(TrackerError::BencodeDecode(_)) => body_of(bytes) is None,
        Err(TrackerError::AnnounceFailed(reason)) => body_of(bytes) == Some(
            Ok::<TrackerResponseView, SchemaError>(
                TrackerResponseView::Failure { failure_reason: reason@ },
            ),
        ),
        Err(TrackerError::Schema(e)) => body_of(bytes) == Some(
            Err::<TrackerResponseView, SchemaError>(e),
        ),
        Err(TrackerError::InvalidStatus(_)) => false,
    }
}

/// What the body of an answer comes to: the peer list, or the reason why
/// there is none.
pub fn convert_body(bytes: &[u8]) -> (r: Result<AnnounceRsp, TrackerError>)
    ensures
        converted(bytes@, r),
{
    let value = match decode(bytes) {
        Ok(value) => value,
        Err(e) => return Err(TrackerError::BencodeDecode(e)),
    };
    match decode_response(&value) {
        Ok(TrackerResponse::Success(rsp)) => Ok(rsp),
        Ok(TrackerResponse::Failure { failure_reason }) => Err(
            TrackerError::AnnounceFailed(failure_reason),
        ),
        Err(e) => Err(TrackerError::Schema(e)),
    }
}

/// The announce that opens a download of which nothing has been fetched
/// yet: nothing sent, nothing received, and the whole of the torrent left.
pub open spec fn fresh_request(torrent: TorrentView, peer_id: Seq<char>) -> AnnounceReqView {
    AnnounceReqView {
        info_hash: info_hash_of(torrent.info),
        peer_id,
        ip: Seq::empty(),
        port: 0,
        uploaded: seq!['0'],
        downloaded: seq!['0'],
        left: ascii_chars(decimal_int(total_length(torrent.info))),
        event: AnnounceEv::Empty,
        compact: true,
    }
}

impl AnnounceReq {
    /// The announce that opens the download of a torrent: it carries the
    /// info-hash, asks for a compact peer list, and reports as left the
    /// number of bytes that the torrent holds.
    pub fn fresh_download(torrent: &Torrent, peer_id: String) -> (req: AnnounceReq)
        ensures
            req@ == fresh_request(torrent@, peer_id@),
            req.left@ == ascii_chars(decimal_int(total_length(torrent@.info))),
    {
        proof {
            reveal_strlit("0");
        }
        let mut uploaded = String::new();
        uploaded.append("0");
        let mut downloaded = String::new();
        downloaded.append("0");
        assert(uploaded@ =~= seq!['0']);
        assert(downloaded@ =~= seq!['0']);
        AnnounceReq {
            info_hash: torrent.calc_hash(),
            peer_id,
            ip: String::new(),
            port: 0,
            uploaded,
            downloaded,
            left: decimal_int_text(torrent.calc_download_lenght()),
            event: AnnounceEv::Empty,
            compact: true,
        }
    }
}

} // verus!
