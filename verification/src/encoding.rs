//! The bencode encoding of a value tree.

use crate::bencode::{entries_view, items_view, Bencode, BencodeValue, DictEntry};
use crate::bencode::{lemma_dict_view, lemma_list_view};
use crate::text::{decimal, decimal_int, push_decimal, push_decimal_int};
use vstd::prelude::*;

verus! {

/// The byte `i`, which opens an integer.
pub const INTEGER_START: u8 = 105;

/// The byte `l`, which opens a list.
pub const LIST_START: u8 = 108;

/// The byte `d`, which opens a dictionary.
pub const DICT_START: u8 = 100;

/// The byte `e`, which closes an integer, a list or a dictionary.
pub const END: u8 = 101;

/// The byte `:`, which parts the length of a byte string from its bytes.
pub const COLON: u8 = 58;

/// A byte string is written as its length in decimal, a colon and the bytes.
pub open spec fn bytes_encoding(bytes: Seq<u8>) -> Seq<u8> {
    decimal(bytes.len()) + seq![COLON] + bytes
}

/// The encoding of a value. An integer is written in decimal between `i` and
/// `e`; a list as its items between `l` and `e`; a dictionary as its entries,
/// each key followed by its value, between `d` and `e`, in the order in which
/// the value holds them.
pub open spec fn encoding(value: Bencode) -> Seq<u8>
    decreases value, 0nat,
{
    match value {
        Bencode::Integer(i) => seq![INTEGER_START] + decimal_int(i as int) + seq![END],
        Bencode::Bytes(bytes) => bytes_encoding(bytes),
        Bencode::List(items) => seq![LIST_START] + items_encoding(items, items.len()) + seq![END],
        Bencode::Dict(entries) => seq![DICT_START] + entries_encoding(entries, entries.len())
            + seq![END],
    }
}

/// The encodings of the first `n` items, one after the other.
pub open spec fn items_encoding(items: Seq<Bencode>, n: nat) -> Seq<u8>
    decreases items, n,
{
    if n == 0 || n > items.len() {
        Seq::empty()
    } else {
        items_encoding(items, (n - 1) as nat) + encoding(items[n - 1])
    }
}

/// The encodings of the first `n` entries, one after the other.
pub open spec fn entries_encoding(entries: Seq<(Seq<u8>, Bencode)>, n: nat) -> Seq<u8>
    decreases entries, n,
{
    if n == 0 || n > entries.len() {
        Seq::empty()
    } else {
        entries_encoding(entries, (n - 1) as nat) + bytes_encoding(entries[n - 1].0) + encoding(
            entries[n - 1].1,
        )
    }
}

/// Appends the encoding of a byte string to `out`.
pub fn encode_bytes_into(bytes: &[u8], out: &mut Vec<u8>)
    ensures
        final(out)@ == old(out)@ + bytes_encoding(bytes@),
{
    push_decimal(bytes.len() as u128, out);
    out.push(COLON);
    out.extend_from_slice(bytes);
    assert(final(out)@ =~= old(out)@ + bytes_encoding(bytes@));
}

impl BencodeValue {
    /// Appends the encoding of the value to `out`.
    pub fn encode_into(&self, out: &mut Vec<u8>)
        ensures
            final(out)@ == old(out)@ + encoding(self@),
        decreases self,
    {
        match self {
            BencodeValue::Integer(i) => {
                out.push(INTEGER_START);
                push_decimal_int(*i, out);
                out.push(END);
                assert(final(out)@ =~= old(out)@ + encoding(self@));
            },
            BencodeValue::Bytes(bytes) => {
                encode_bytes_into(bytes.as_slice(), out);
            },
            BencodeValue::List(items) => {
                proof {
                    lemma_list_view(*items);
                }
                let ghost models = items_view(items@);
                out.push(LIST_START);
                let mut i: usize = 0;
                while i < items.len()
                    invariant
                        i <= items.len(),
                        models == items_view(items@),
                        *self == BencodeValue::List(*items),
                        out@ == old(out)@ + seq![LIST_START] + items_encoding(models, i as nat),
                    decreases items.len() - i,
                {
                    assert(decreases_to!(*self => self->List_0));
                    assert(decreases_to!(*items => items[i as int]));
                    items[i].encode_into(out);
                    i += 1;
                    assert(out@ =~= old(out)@ + seq![LIST_START] + items_encoding(
                        models,
                        i as nat,
                    ));
                }
                out.push(END);
                assert(final(out)@ =~= old(out)@ + encoding(self@));
            },
            BencodeValue::Dict(entries) => {
                proof {
                    lemma_dict_view(*entries);
                }
                let ghost models = entries_view(entries@);
                out.push(DICT_START);
                let mut i: usize = 0;
                while i < entries.len()
                    invariant
                        i <= entries.len(),
                        models == entries_view(entries@),
                        *self == BencodeValue::Dict(*entries),
                        out@ == old(out)@ + seq![DICT_START] + entries_encoding(models, i as nat),
                    decreases entries.len() - i,
                {
                    encode_bytes_into(entries[i].key.as_slice(), out);
                    assert(decreases_to!(*self => self->Dict_0));
                    assert(decreases_to!(*entries => entries[i as int]));
                    assert(decreases_to!(entries[i as int] => entries[i as int].value));
                    entries[i].value.encode_into(out);
                    i += 1;
                    assert(out@ =~= old(out)@ + seq![DICT_START] + entries_encoding(
                        models,
                        i as nat,
                    ));
                }
                out.push(END);
                assert(final(out)@ =~= old(out)@ + encoding(self@));
            },
        }
    }

    /// The encoding of the value.
    pub fn encode(&self) -> (bytes: Vec<u8>)
        ensures
            bytes@ == encoding(self@),
    {
        let mut out: Vec<u8> = Vec::new();
        self.encode_into(&mut out);
        assert(out@ =~= encoding(self@));
        out
    }
}

} // verus!
