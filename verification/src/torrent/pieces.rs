//! The piece hashes of a torrent: in the file one byte string, here one
//! 20-byte value for each piece.

use crate::error::SchemaError;
use crate::torrent::pieces_view;
use vstd::prelude::*;

verus! {

/// The hashes that a byte string holds: one for every twenty bytes, in the
/// order of the bytes. A length that is no multiple of twenty is an error.
pub open spec fn pieces_of(bytes: Seq<u8>) -> Result<Seq<Seq<u8>>, SchemaError> {
    if bytes.len() % 20 != 0 {
        Err(SchemaError::InvalidPieceLength)
    } else {
        Ok(Seq::new(bytes.len() / 20, |i: int| bytes.subrange(20 * i, 20 * i + 20)))
    }
}

/// The byte string that holds the hashes one after the other. Each hash has
/// twenty bytes.
pub open spec fn pieces_bytes(pieces: Seq<Seq<u8>>) -> Seq<u8> {
    Seq::new(20 * pieces.len(), |j: int| pieces[j / 20][j % 20])
}

/// Parts the byte string under `pieces` into the hashes of the pieces.
pub fn deserialize(bytes: &[u8]) -> (r: Result<Vec<[u8; 20]>, SchemaError>)
    ensures
        match r {
            Ok(pieces) => pieces_of(bytes@) == Ok::<Seq<Seq<u8>>, SchemaError>(
                pieces_view(pieces@),
            ),
            Err(e) => pieces_of(bytes@) == Err::<Seq<Seq<u8>>, SchemaError>(e),
        },
{
    if bytes.len() % 20 != 0 {
        return Err(SchemaError::InvalidPieceLength);
    }
    let count: usize = bytes.len() / 20;
    let mut pieces: Vec<[u8; 20]> = Vec::new();
    let mut i: usize = 0;
    while i < count
        invariant
            i <= count,
            count == bytes.len() / 20,
            bytes.len() % 20 == 0,
            pieces@.len() == i,
            forall|j: int|
                0 <= j < i ==> (#[trigger] pieces@[j])@ == bytes@.subrange(20 * j, 20 * j + 20),
        decreases count - i,
    {
        let at: usize = 20 * i;
        let piece: [u8; 20] = [
            bytes[at],
            bytes[at + 1],
            bytes[at + 2],
            bytes[at + 3],
            bytes[at + 4],
            bytes[at + 5],
            bytes[at + 6],
            bytes[at + 7],
            bytes[at + 8],
            bytes[at + 9],
            bytes[at + 10],
            bytes[at + 11],
            bytes[at + 12],
            bytes[at + 13],
            bytes[at + 14],
            bytes[at + 15],
            bytes[at + 16],
            bytes[at + 17],
            bytes[at + 18],
            bytes[at + 19],
        ];
        assert(piece@ =~= bytes@.subrange(20 * i, 20 * i + 20));
        pieces.push(piece);
        i += 1;
    }
    assert(pieces_view(pieces@) =~= pieces_of(bytes@)->Ok_0);
    Ok(pieces)
}

/// Joins the hashes of the pieces into the byte string to store under
/// `pieces`.
pub fn serialize(pieces: &Vec<[u8; 20]>) -> (bytes: Vec<u8>)
    ensures
        bytes@ == pieces_bytes(pieces_view(pieces@)),
{
    let mut bytes: Vec<u8> = Vec::new();
    let mut i: usize = 0;
    while i < pieces.len()
        invariant
            i <= pieces.len(),
            bytes@.len() == 20 * i,
            forall|j: int| 0 <= j < 20 * i ==> bytes@[j] == (#[trigger] pieces@[j / 20])@[j % 20],
        decreases pieces.len() - i,
    {
        let ghost before = bytes@;
        bytes.extend_from_slice(pieces[i].as_slice());
        assert forall|j: int| 0 <= j < 20 * (i + 1) implies bytes@[j] == (#[trigger] pieces@[j
            / 20])@[j % 20] by {
            if j < 20 * i {
                assert(bytes@[j] == before[j]);
            } else {
                assert(j / 20 == i as int);
                assert(bytes@[j] == pieces@[i as int]@[j - 20 * i]);
            }
        }
        i += 1;
    }
    assert(bytes@ =~= pieces_bytes(pieces_view(pieces@)));
    bytes
}

/// Parting what was joined gives the hashes back.
pub proof fn law_parting_restores_pieces(pieces: Seq<Seq<u8>>)
    requires
        forall|i: int| 0 <= i < pieces.len() ==> (#[trigger] pieces[i]).len() == 20,
    ensures
        pieces_of(pieces_bytes(pieces)) == Ok::<Seq<Seq<u8>>, SchemaError>(pieces),
{
    let bytes = pieces_bytes(pieces);
    let parted = pieces_of(bytes)->Ok_0;
    assert(parted.len() == pieces.len());
    assert forall|i: int| 0 <= i < pieces.len() implies parted[i] == pieces[i] by {
        assert forall|k: int| 0 <= k < 20 implies parted[i][k] == pieces[i][k] by {
            assert((20 * i + k) / 20 == i);
            assert((20 * i + k) % 20 == k);
        }
        assert(parted[i] =~= pieces[i]);
    }
    assert(parted =~= pieces);
}

/// Joining what was parted gives the byte string back.
pub proof fn law_joining_restores_bytes(bytes: Seq<u8>)
    requires
        bytes.len() % 20 == 0,
    ensures
        pieces_bytes(pieces_of(bytes)->Ok_0) == bytes,
{
    let pieces = pieces_of(bytes)->Ok_0;
    assert forall|j: int| 0 <= j < bytes.len() implies pieces_bytes(pieces)[j] == bytes[j] by {
        assert(pieces[j / 20][j % 20] == bytes[20 * (j / 20) + j % 20]);
    }
    assert(pieces_bytes(pieces) =~= bytes);
}

} // verus!
