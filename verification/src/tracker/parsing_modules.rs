//! The compact peer list, in which each peer is an address followed by a
//! port, both in network byte order, and the escaping of bytes in a query.

use crate::error::SchemaError;
use crate::text::{all_ascii, ascii_chars, ascii_text};
use crate::tracker::{peers_view, Peer, PeerAddr, PeerAddrView, PeerView};
use vstd::prelude::*;

verus! {

/// The number of bytes that a peer with an IPv4 address takes.
pub const PEER_IPV4_CHUNK_LEN: u8 = 6;

/// The number of bytes that a peer with an IPv6 address takes.
pub const PEER_IPV6_CHUNK_LEN: u8 = 18;

/// The port that two bytes spell, the high byte first.
pub open spec fn port_of(high: u8, low: u8) -> u16 {
    (high * 256 + low) as u16
}

/// The peer at place `i` of a compact list of IPv4 peers.
pub open spec fn compact_peer_v4(bytes: Seq<u8>, i: int) -> PeerView {
    PeerView {
        id: None,
        ip: PeerAddrView::V4(bytes.subrange(6 * i, 6 * i + 4)),
        port: port_of(bytes[6 * i + 4], bytes[6 * i + 5]),
    }
}

/// The peer at place `i` of a compact list of IPv6 peers.
pub open spec fn compact_peer_v6(bytes: Seq<u8>, i: int) -> PeerView {
    PeerView {
        id: None,
        ip: PeerAddrView::V6(bytes.subrange(18 * i, 18 * i + 16)),
        port: port_of(bytes[18 * i + 16], bytes[18 * i + 17]),
    }
}

/// The peers of a compact list of IPv4 peers: one for every six bytes, in
/// the order of the bytes. A length that is no multiple of six is an error.
pub open spec fn compact_peers_v4(bytes: Seq<u8>) -> Result<Seq<PeerView>, SchemaError> {
    if bytes.len() % 6 != 0 {
        Err(
            SchemaError::InvalidCompactListLength {
                entry_size: PEER_IPV4_CHUNK_LEN,
                actual_length: bytes.len() as u64,
            },
        )
    } else {
        Ok(Seq::new(bytes.len() / 6, |i: int| compact_peer_v4(bytes, i)))
    }
}

/// The peers of a compact list of IPv6 peers: one for every eighteen bytes,
/// in the order of the bytes. A length that is no multiple of eighteen is an
/// error.
pub open spec fn compact_peers_v6(bytes: Seq<u8>) -> Result<Seq<PeerView>, SchemaError> {
    if bytes.len() % 18 != 0 {
        Err(
            SchemaError::InvalidCompactListLength {
                entry_size: PEER_IPV6_CHUNK_LEN,
                actual_length: bytes.len() as u64,
            },
        )
    } else {
        Ok(Seq::new(bytes.len() / 18, |i: int| compact_peer_v6(bytes, i)))
    }
}

/// Reads two bytes as a port, the high byte first.
fn read_port(high: u8, low: u8) -> (port: u16)
    ensures
        port == port_of(high, low),
{
    (high as u16) * 256 + (low as u16)
}

/// Decodes a compact list of peers with IPv4 addresses.
pub fn deserialize_ipv4(bytes: &[u8]) -> (r: Result<Vec<Peer>, SchemaError>)
    ensures
        match r {
            Ok(peers) => compact_peers_v4(bytes@) == Ok::<Seq<PeerView>, SchemaError>(
                peers_view(peers@),
            ),
            Err(e) => compact_peers_v4(bytes@) == Err::<Seq<PeerView>, SchemaError>(e),
        },
{
    if bytes.len() % 6 != 0 {
        return Err(
            SchemaError::InvalidCompactListLength {
                entry_size: PEER_IPV4_CHUNK_LEN,
                actual_length: bytes.len() as u64,
            },
        );
    }
    let count: usize = bytes.len() / 6;
    let mut peers: Vec<Peer> = Vec::new();
    let mut i: usize = 0;
    while i < count
        invariant
            i <= count,
            count == bytes.len() / 6,
            bytes.len() % 6 == 0,
            peers@.len() == i,
            forall|j: int| 0 <= j < i ==> (#[trigger] peers@[j])@ == compact_peer_v4(bytes@, j),
        decreases count - i,
    {
        let at: usize = 6 * i;
        let octets: [u8; 4] = [bytes[at], bytes[at + 1], bytes[at + 2], bytes[at + 3]];
        let port: u16 = read_port(bytes[at + 4], bytes[at + 5]);
        assert(octets@ =~= bytes@.subrange(6 * i, 6 * i + 4));
        peers.push(Peer { id: None, ip: PeerAddr::V4(octets), port });
        i += 1;
    }
    assert(peers_view(peers@) =~= compact_peers_v4(bytes@)->Ok_0);
    Ok(peers)
}

/// Decodes a compact list of peers with IPv6 addresses.
pub fn deserialize_ipv6(bytes: &[u8]) -> (r: Result<Vec<Peer>, SchemaError>)
    ensures
        match r {
            Ok(peers) => compact_peers_v6(bytes@) == Ok::<Seq<PeerView>, SchemaError>(
                peers_view(peers@),
            ),
            Err(e) => compact_peers_v6(bytes@) == Err::<Seq<PeerView>, SchemaError>(e),
        },
{
    if bytes.len() % 18 != 0 {
        return Err(
            SchemaError::InvalidCompactListLength {
                entry_size: PEER_IPV6_CHUNK_LEN,
                actual_length: bytes.len() as u64,
            },
        );
    }
    let count: usize = bytes.len() / 18;
    let mut peers: Vec<Peer> = Vec::new();
    let mut i: usize = 0;
    while i < count
        invariant
            i <= count,
            count == bytes.len() / 18,
            bytes.len() % 18 == 0,
            peers@.len() == i,
            forall|j: int| 0 <= j < i ==> (#[trigger] peers@[j])@ == compact_peer_v6(bytes@, j),
        decreases count - i,
    {
        let at: usize = 18 * i;
        let octets: [u8; 16] = [
            bytes[at],
            bytes[at + 1],
            bytes[at + 2],
            bytes[at + 3],
            bytes[at + 4],
            bytes[at + 5],
            bytes[at + 6],
            bytes[at + 7],
            bytes[at + 8],
            bytes[at + 9],
            bytes[at + 10],
            bytes[at + 11],
            bytes[at + 12],
            bytes[at + 13],
            bytes[at + 14],
            bytes[at + 15],
        ];
        let port: u16 = read_port(bytes[at + 16], bytes[at + 17]);
        assert(octets@ =~= bytes@.subrange(18 * i, 18 * i + 16));
        peers.push(Peer { id: None, ip: PeerAddr::V6(octets), port });
        i += 1;
    }
    assert(peers_view(peers@) =~= compact_peers_v6(bytes@)->Ok_0);
    Ok(peers)
}

/// A byte that stands for itself in a query: a letter, a digit, or one of
/// `*`, `-`, `.` and `_`.
pub open spec fn is_unreserved(byte: u8) -> bool {
    ||| 48 <= byte <= 57
    ||| 65 <= byte <= 90
    ||| 97 <= byte <= 122
    ||| byte == 42
    ||| byte == 45
    ||| byte == 46
    ||| byte == 95
}

/// The digit, `0` to `9` and `A` to `F`, for a number below sixteen.
pub open spec fn hex_upper(nibble: u8) -> u8 {
    if nibble < 10 {
        (48 + nibble) as u8
    } else {
        (55 + nibble) as u8
    }
}

/// One byte as it is written in a query: itself where it is unreserved, `+`
/// for a space, and else `%` followed by its two hexadecimal digits.
pub open spec fn escaped_byte(byte: u8) -> Seq<u8> {
    if is_unreserved(byte) {
        seq![byte]
    } else if byte == 32 {
        seq![43u8]
    } else {
        seq![37u8, hex_upper(byte / 16), hex_upper(byte % 16)]
    }
}

/// Bytes as they are written in a query: each byte escaped by itself, so
/// that bytes which are no text pass unharmed.
pub open spec fn escaped(bytes: Seq<u8>) -> Seq<u8>
    decreases bytes.len(),
{
    if bytes.len() == 0 {
        Seq::empty()
    } else {
        escaped(bytes.drop_last()) + escaped_byte(bytes.last())
    }
}

/// Escaped bytes are ASCII.
pub proof fn lemma_escaped_is_ascii(bytes: Seq<u8>)
    ensures
        all_ascii(escaped(bytes)),
    decreases bytes.len(),
{
    if bytes.len() > 0 {
        lemma_escaped_is_ascii(bytes.drop_last());
    }
}

/// The digit for a number below sixteen.
fn hex_digit(nibble: u8) -> (digit: u8)
    requires
        nibble < 16,
    ensures
        digit == hex_upper(nibble),
{
    if nibble < 10 {
        48 + nibble
    } else {
        55 + nibble
    }
}

/// True for a byte that stands for itself in a query.
fn unreserved(byte: u8) -> (plain: bool)
    ensures
        plain == is_unreserved(byte),
{
    (48 <= byte && byte <= 57) || (65 <= byte && byte <= 90) || (97 <= byte && byte <= 122)
        || byte == 42 || byte == 45 || byte == 46 || byte == 95
}

/// Appends the escaped form of `bytes` to `out`.
pub fn push_escaped(out: &mut Vec<u8>, bytes: &[u8])
    ensures
        final(out)@ == old(out)@ + escaped(bytes@),
        all_ascii(old(out)@) ==> all_ascii(final(out)@),
{
    let mut i: usize = 0;
    assert(bytes@.take(0) =~= Seq::empty());
    assert(out@ =~= old(out)@ + escaped(bytes@.take(0)));
    while i < bytes.len()
        invariant
            i <= bytes.len(),
            out@ == old(out)@ + escaped(bytes@.take(i as int)),
        decreases bytes.len() - i,
    {
        let byte: u8 = bytes[i];
        let ghost before = out@;
        if unreserved(byte) {
            out.push(byte);
        } else if byte == 32 {
            out.push(43);
        } else {
            out.push(37);
            out.push(hex_digit(byte / 16));
            out.push(hex_digit(byte % 16));
        }
        proof {
            assert(bytes@.take(i + 1).drop_last() =~= bytes@.take(i as int));
            assert(out@ =~= before + escaped_byte(byte));
            assert(out@ =~= old(out)@ + escaped(bytes@.take(i + 1)));
        }
        i += 1;
    }
    proof {
        assert(bytes@.take(i as int) =~= bytes@);
        lemma_escaped_is_ascii(bytes@);
    }
}

/// Escapes bytes for a query, taking each byte for itself: the info-hash
/// is no text.
pub fn serialize_bytes_urlencoded(bytes: &[u8]) -> (text: String)
    ensures
        text@ == ascii_chars(escaped(bytes@)),
{
    let mut out: Vec<u8> = Vec::new();
    push_escaped(&mut out, bytes);
    assert(out@ =~= escaped(bytes@));
    ascii_text(out.as_slice())
}

} // verus!
