//! Reading a value tree from bencoded bytes.

use crate::bencode::{Bencode, BencodeValue, DictEntry};
use crate::encoding::encoding;
use vstd::prelude::*;

verus! {

/// The error that the bendy decoder reports for input that is not bencode.
#[verifier::external_type_specification]
#[verifier::external_body]
pub struct ExDecodeError(bendy::decoding::Error);

/// A value tree as the bendy decoder hands it out.
#[verifier::external_type_specification]
#[verifier::external_body]
pub struct ExOutsideValue<'a>(bendy::value::Value<'a>);

/// How deep lists and dictionaries may be nested in input that is decoded.
/// The limit bounds the stack that decoding takes.
pub const MAX_DEPTH: usize = 128;

/// The input starts with the encoding of `value`, which is canonical and
/// nested no deeper than `limit`. Bytes after that encoding are not looked at.
pub open spec fn decodes_to(bytes: Seq<u8>, value: Bencode, limit: nat) -> bool {
    &&& value.canonical()
    &&& value.within_depth(limit)
    &&& encoding(value).is_prefix_of(bytes)
}

/// The tree that a value of the bendy crate holds: the same integers, byte
/// strings and lists, and the entries of each dictionary in ascending order
/// of their keys, which is the order of the `BTreeMap` that holds them.
pub uninterp spec fn outside_tree(value: bendy::value::Value<'static>) -> Bencode;

/// What decoding owes: the tree that the input starts with, where there is
/// one, and an error where there is none.
pub open spec fn decoded(
    bytes: Seq<u8>,
    limit: nat,
    r: Result<bendy::value::Value<'static>, bendy::decoding::Error>,
) -> bool {
    match r {
        Ok(found) => decodes_to(bytes, outside_tree(found), limit),
        Err(_) => forall|value: Bencode| !decodes_to(bytes, value, limit),
    }
}

/// Copies a value of the bendy crate into a value of this library, shape
/// for shape: `bendy::value::Value` has the same four variants.
#[verifier::external_body]
fn lift(value: bendy::value::Value<'static>) -> (tree: BencodeValue)
    ensures
        tree@ == outside_tree(value),
{
    match value {
        bendy::value::Value::Integer(i) => BencodeValue::Integer(i),
        bendy::value::Value::Bytes(bytes) => BencodeValue::Bytes(bytes.into_owned()),
        bendy::value::Value::List(items) => BencodeValue::List(
            items.into_iter().map(lift).collect(),
        ),
        bendy::value::Value::Dict(entries) => BencodeValue::Dict(
            entries.into_iter().map(
                |(key, value)| DictEntry { key: key.into_owned(), value: lift(value) },
            ).collect(),
        ),
    }
}

/// Reads the first value of the input with `bendy::decoding::Decoder` and
/// `bendy::value::Value::decode_bencode_object`. The decoder accepts
/// canonical bencode only: integers and lengths without leading zeros or a
/// negative zero, dictionary keys in strictly ascending order, nesting no
/// deeper than the limit it was given. It reads one value from the start of
/// the input and leaves the rest unread. So a result is a canonical tree
/// within the limit whose encoding the input starts with, and an error means
/// that there is no such tree. The decoder descends once for each level of
/// nesting, so the limit is kept small.
#[verifier::external_body]
fn read_value(bytes: &[u8], max_depth: usize) -> (r: Result<
    bendy::value::Value<'static>,
    bendy::decoding::Error,
>)
    requires
        max_depth <= MAX_DEPTH,
    ensures
        decoded(bytes@, max_depth as nat, r),
{
    let mut decoder = bendy::decoding::Decoder::new(bytes).with_max_depth(max_depth);
    let found = match decoder.next_object()? {
        Some(object) => bendy::decoding::FromBencode::decode_bencode_object(object),
        None => Err(bendy::decoding::Error::unexpected_token("a value", "no input")),
    };
    found
}

/// A byte string starts with the encoding of one value at most.
pub proof fn law_decoding_is_unique(bytes: Seq<u8>, a: Bencode, b: Bencode, limit: nat)
    requires
        decodes_to(bytes, a, limit),
        decodes_to(bytes, b, limit),
    ensures
        a == b,
{
    let rest_a = bytes.subrange(encoding(a).len() as int, bytes.len() as int);
    let rest_b = bytes.subrange(encoding(b).len() as int, bytes.len() as int);
    assert(encoding(a) + rest_a =~= bytes);
    assert(encoding(b) + rest_b =~= bytes);
    crate::encoding_laws::law_encoding_is_prefix_free(a, b, rest_a, rest_b);
}

/// The tree that the input starts with, if there is one.
pub open spec fn parse(bytes: Seq<u8>) -> Option<Bencode> {
    if exists|value: Bencode| decodes_to(bytes, value, MAX_DEPTH as nat) {
        Some(choose|value: Bencode| decodes_to(bytes, value, MAX_DEPTH as nat))
    } else {
        None
    }
}

/// Decodes the value that the input starts with. The input must be canonical
/// bencode, nested no deeper than [`MAX_DEPTH`].
pub fn decode(bytes: &[u8]) -> (r: Result<BencodeValue, bendy::decoding::Error>)
    ensures
        match r {
            Ok(value) => parse(bytes@) == Some(value@) && value@.canonical(),
            Err(_) => parse(bytes@) is None,
        },
        forall|value: Bencode|
            decodes_to(bytes@, value, MAX_DEPTH as nat) ==> parse(bytes@) == Some(value),
{
    match read_value(bytes, MAX_DEPTH) {
        Ok(found) => {
            let tree = lift(found);
            proof {
                assert forall|value: Bencode|
                    decodes_to(bytes@, value, MAX_DEPTH as nat) implies value == tree@ by {
                    law_decoding_is_unique(bytes@, value, tree@, MAX_DEPTH as nat);
                }
            }
            Ok(tree)
        },
        Err(e) => Err(e),
    }
}

} // verus!
