use brs::bencode::{BencodeValue, DictEntry};
use brs::error::{Field, Kind, SchemaError};
use brs::torrent::Torrent;
use brs::tracker::announce::convert_body;
use brs::tracker::parsing_modules::{deserialize_ipv4, deserialize_ipv6, serialize_bytes_urlencoded};
use brs::tracker::session::Tracker;
use brs::tracker::{AnnounceEv, AnnounceReq, Peer, PeerAddr, TrackerError};

fn schema_error(bytes: &[u8]) -> SchemaError {
    match convert_body(bytes) {
        Err(TrackerError::Schema(e)) => e,
        other => panic!("expected a schema error, got {:?}", other),
    }
}

#[test]
fn twelve_bytes_are_two_peers() {
    let bytes = [10, 0, 0, 1, 0x1a, 0xe1, 192, 168, 1, 2, 0x00, 0x50];
    let peers = deserialize_ipv4(&bytes).unwrap();
    assert_eq!(
        peers,
        vec![
            Peer { id: None, ip: PeerAddr::V4([10, 0, 0, 1]), port: 6881 },
            Peer { id: None, ip: PeerAddr::V4([192, 168, 1, 2]), port: 80 },
        ]
    );
}

#[test]
fn thirteen_bytes_are_no_peer_list() {
    let bytes = [0u8; 13];
    assert_eq!(
        deserialize_ipv4(&bytes),
        Err(SchemaError::InvalidCompactListLength { entry_size: 6, actual_length: 13 })
    );
}

#[test]
fn eighteen_bytes_are_one_ipv6_peer() {
    let mut bytes: Vec<u8> = (1u8..=16).collect();
    bytes.extend([0xff, 0xfe]);
    let peers = deserialize_ipv6(&bytes).unwrap();
    let mut octets = [0u8; 16];
    octets.copy_from_slice(&bytes[..16]);
    assert_eq!(peers, vec![Peer { id: None, ip: PeerAddr::V6(octets), port: 0xfffe }]);
    assert_eq!(
        deserialize_ipv6(&bytes[..17]),
        Err(SchemaError::InvalidCompactListLength { entry_size: 18, actual_length: 17 })
    );
    assert_eq!(deserialize_ipv6(&[]), Ok(vec![]));
}

#[test]
fn failure_reason_is_an_error() {
    match convert_body(b"d14:failure reason13:bad info_hashe") {
        Err(TrackerError::AnnounceFailed(reason)) => assert_eq!(reason, "bad info_hash"),
        other => panic!("expected a refusal, got {:?}", other),
    }
    match convert_body(b"d14:failure reason2:no8:intervali5e5:peers0:e") {
        Err(TrackerError::AnnounceFailed(reason)) => assert_eq!(reason, "no"),
        other => panic!("expected a refusal, got {:?}", other),
    }
}

#[test]
fn compact_response_is_decoded() {
    let rsp = convert_body(b"d8:completei3e8:intervali1800e5:peers6:\x7f\x00\x00\x01\x1a\xe1e").unwrap();
    assert_eq!(rsp.interval, 1800);
    assert_eq!(rsp.peers, vec![Peer { id: None, ip: PeerAddr::V4([127, 0, 0, 1]), port: 6881 }]);
    assert_eq!(
        rsp.additional_fields,
        vec![DictEntry { key: b"complete".to_vec(), value: BencodeValue::Integer(3) }]
    );
}

#[test]
fn ipv4_peers_come_before_ipv6_peers() {
    let mut body = b"d8:intervali60e5:peers6:\x01\x02\x03\x04\x00\x016:peers618:".to_vec();
    body.extend([9u8; 16]);
    body.extend([0x00, 0x02]);
    body.push(b'e');
    let rsp = convert_body(&body).unwrap();
    assert_eq!(
        rsp.peers,
        vec![
            Peer { id: None, ip: PeerAddr::V4([1, 2, 3, 4]), port: 1 },
            Peer { id: None, ip: PeerAddr::V6([9; 16]), port: 2 },
        ]
    );
}

#[test]
fn verbose_response_is_decoded() {
    let rsp = convert_body(
        b"d8:intervali900e5:peersld2:ip8:10.0.0.97:peer id3:abc4:porti51413eed2:ip3:::14:porti1eeee",
    )
    .unwrap();
    assert_eq!(rsp.interval, 900);
    assert_eq!(
        rsp.peers,
        vec![
            Peer { id: Some("abc".to_string()), ip: PeerAddr::Name("10.0.0.9".to_string()), port: 51413 },
            Peer { id: None, ip: PeerAddr::Name("::1".to_string()), port: 1 },
        ]
    );
    assert!(rsp.additional_fields.is_empty());
}

#[test]
fn response_errors_are_precise() {
    assert_eq!(schema_error(b"d5:peers0:e"), SchemaError::MissingField(Field::Interval));
    assert_eq!(schema_error(b"d8:intervali1ee"), SchemaError::MissingField(Field::Peers));
    assert_eq!(
        schema_error(b"d8:intervali1e5:peers7:abcdefge"),
        SchemaError::InvalidCompactListLength { entry_size: 6, actual_length: 7 }
    );
    assert_eq!(
        schema_error(b"d8:intervali1e6:peers61:xe"),
        SchemaError::InvalidCompactListLength { entry_size: 18, actual_length: 1 }
    );
    assert_eq!(schema_error(b"d8:intervali-1e5:peers0:e"), SchemaError::OutOfRange(Field::Interval));
    assert_eq!(
        schema_error(b"d8:intervali1e5:peersld2:ip1:a4:porti65536eeee"),
        SchemaError::OutOfRange(Field::Port)
    );
    assert_eq!(
        schema_error(b"d8:intervali1e5:peersld4:porti1eeee"),
        SchemaError::MissingField(Field::Ip)
    );
    assert_eq!(
        schema_error(b"d8:intervali1e5:peersi5ee"),
        SchemaError::TypeMismatch { expected: Kind::List, found: Kind::Integer }
    );
    assert_eq!(
        schema_error(b"d14:failure reason1:\xffe"),
        SchemaError::InvalidUtf8(Field::FailureReason)
    );
    assert_eq!(
        schema_error(b"i1e"),
        SchemaError::TypeMismatch { expected: Kind::Dict, found: Kind::Integer }
    );
    assert!(matches!(convert_body(b"xx"), Err(TrackerError::BencodeDecode(_))));
}

#[test]
fn bytes_are_escaped_one_by_one() {
    assert_eq!(serialize_bytes_urlencoded(b"aZ09*-._"), "aZ09*-._");
    assert_eq!(serialize_bytes_urlencoded(b" "), "+");
    assert_eq!(serialize_bytes_urlencoded(&[0x00, 0x12, 0xab, 0xff, b'~', b'%']), "%00%12%AB%FF%7E%25");
    assert_eq!(serialize_bytes_urlencoded(&[]), "");
}

fn request() -> AnnounceReq {
    AnnounceReq {
        info_hash: vec![0x12, 0x34, b'a', 0xff, b' '],
        peer_id: "-BR010-abc def".to_string(),
        ip: String::new(),
        port: 6881,
        uploaded: "0".to_string(),
        downloaded: "10".to_string(),
        left: "4096".to_string(),
        event: AnnounceEv::Started,
        compact: true,
    }
}

#[test]
fn query_holds_the_parameters_in_order() {
    assert_eq!(
        request().query_string(),
        "info_hash=%124a%FF+&peer_id=-BR010-abc+def&port=6881&uploaded=0&downloaded=10&left=4096&event=started&compact=1"
    );
    let mut req = request();
    req.ip = "10.0.0.1".to_string();
    req.compact = false;
    req.event = AnnounceEv::Empty;
    assert_eq!(
        req.query_string(),
        "info_hash=%124a%FF+&peer_id=-BR010-abc+def&ip=10.0.0.1&port=6881&uploaded=0&downloaded=10&left=4096&event=empty&compact=0"
    );
    let params = request().query_params();
    assert_eq!(params.len(), 8);
    assert_eq!(params[0].name, "info_hash");
    assert_eq!(params[0].value, "%124a%FF+");
    assert_eq!(params[7].name, "compact");
}

#[test]
fn default_request_is_empty() {
    let req = AnnounceReq::default();
    assert_eq!(req.event, AnnounceEv::Empty);
    assert_eq!(AnnounceEv::default(), AnnounceEv::Empty);
    assert!(!req.compact);
    assert_eq!(req.port, 0);
    assert!(req.info_hash.is_empty());
}

#[test]
fn fresh_download_leaves_the_whole_torrent() {
    let torrent = Torrent::parse_bytes(
        b"d8:announce10:http://t/a4:infod5:filesld6:lengthi10e4:pathl1:aeed6:lengthi32e4:pathl1:beee4:name1:n12:piece lengthi1e6:pieces0:ee",
    )
    .unwrap();
    let req = AnnounceReq::fresh_download(&torrent, "-BR010-0123456789ab".to_string());
    assert_eq!(req.left, "42");
    assert_eq!(req.left, torrent.calc_download_lenght().to_string());
    assert_eq!(req.uploaded, "0");
    assert_eq!(req.downloaded, "0");
    assert_eq!(req.info_hash, torrent.calc_hash());
    assert!(req.compact);
    assert_eq!(req.event, AnnounceEv::Empty);
}

#[test]
fn announce_url_joins_with_the_right_mark() {
    let tracker = Tracker::new("http://t/announce".to_string());
    assert!(tracker.announce_url(&request()).starts_with("http://t/announce?info_hash=%124a%FF+&"));
    let tracker = Tracker::new("http://t/announce?key=1".to_string());
    assert!(tracker.announce_url(&request()).starts_with("http://t/announce?key=1&info_hash="));
}

#[test]
fn session_starts_idle() {
    let tracker = Tracker::new("http://t/a".to_string());
    assert_eq!(tracker.url, "http://t/a");
    assert_eq!(tracker.interval, None);
    assert_eq!(tracker.peers, None);
}

#[test]
fn accepted_announce_replaces_the_peers() {
    let mut tracker = Tracker::new("http://t/a".to_string());
    tracker
        .announce(200, b"d8:intervali1800e5:peers12:\x01\x02\x03\x04\x00\x01\x05\x06\x07\x08\x00\x02e")
        .unwrap();
    assert_eq!(tracker.interval, Some(1800));
    let peers = tracker.peers.as_ref().unwrap();
    assert_eq!(peers.len(), 2);
    assert_eq!(peers[0].key, "0");
    assert_eq!(peers[1].key, "1");
    assert_eq!(peers[1].peer.ip, PeerAddr::V4([5, 6, 7, 8]));
    assert_eq!(peers[1].peer.port, 2);
    tracker
        .announce(204, b"d8:intervali60e5:peersld2:ip1:h7:peer id2:id4:porti9eeee")
        .unwrap();
    assert_eq!(tracker.interval, Some(60));
    let peers = tracker.peers.as_ref().unwrap();
    assert_eq!(peers.len(), 1);
    assert_eq!(peers[0].key, "id");
    assert_eq!(tracker.url, "http://t/a");
}

#[test]
fn failed_announce_leaves_the_session_as_it_was() {
    let mut tracker = Tracker::new("http://t/a".to_string());
    assert!(matches!(tracker.announce(404, b"d8:intervali1e5:peers0:e"), Err(TrackerError::InvalidStatus(404))));
    assert!(matches!(tracker.announce(199, b""), Err(TrackerError::InvalidStatus(199))));
    assert!(matches!(tracker.announce(300, b""), Err(TrackerError::InvalidStatus(300))));
    assert_eq!(tracker, Tracker::new("http://t/a".to_string()));
    tracker.announce(299, b"d8:intervali7e5:peers6:\x01\x02\x03\x04\x00\x01e").unwrap();
    let before = (tracker.interval, tracker.peers.clone());
    assert!(matches!(
        tracker.announce(200, b"d14:failure reason3:bade"),
        Err(TrackerError::AnnounceFailed(_))
    ));
    assert!(matches!(tracker.announce(200, b"nonsense"), Err(TrackerError::BencodeDecode(_))));
    assert!(matches!(tracker.announce(200, b"d8:intervali7ee"), Err(TrackerError::Schema(_))));
    assert_eq!((tracker.interval, tracker.peers.clone()), before);
}

#[test]
fn convert_bytes_is_convert_body() {
    let tracker = Tracker::new(String::new());
    let rsp = tracker.convert_bytes(b"d8:intervali2e5:peers0:e").unwrap();
    assert_eq!(rsp.interval, 2);
    assert!(rsp.peers.is_empty());
}

#[test]
fn session_finds_peers_by_their_key() {
    let mut tracker = Tracker::new("http://t/a".to_string());
    assert_eq!(tracker.peer("0"), None);
    tracker
        .announce(
            200,
            b"d8:intervali60e5:peersld2:ip1:h7:peer id1:x4:porti9eed2:ip1:g4:porti8eed2:ip1:f7:peer id1:x4:porti7eeee",
        )
        .unwrap();
    let peer = tracker.peer("x").unwrap();
    assert_eq!(peer.ip, PeerAddr::Name("f".to_string()));
    assert_eq!(peer.port, 7);
    let peer = tracker.peer("1").unwrap();
    assert_eq!(peer.port, 8);
    assert_eq!(tracker.peer("0"), None);
    assert_eq!(tracker.peer("2"), None);
}

#[test]
fn text_beyond_ascii_is_escaped_by_its_bytes() {
    let mut req = request();
    req.peer_id = "é~".to_string();
    let params = req.query_params();
    assert_eq!(params[1].name, "peer_id");
    assert_eq!(params[1].value, "%C3%A9%7E");
}
