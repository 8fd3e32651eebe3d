//! The encoding tells values apart: no encoding is the start of another, so
//! a byte string starts with the encoding of one value at most.

use crate::bencode::Bencode;
use crate::encoding::{bytes_encoding, encoding, entries_encoding, items_encoding};
use crate::encoding::{COLON, DICT_START, END, INTEGER_START, LIST_START};
use crate::text::{decimal, decimal_int, DIGIT_ZERO, MINUS};
use vstd::prelude::*;

verus! {

/// True for the bytes `0` to `9`.
pub open spec fn is_digit(byte: u8) -> bool {
    48 <= byte <= 57
}

/// A number in decimal has one digit at least, and digits only.
pub proof fn lemma_decimal_digits(n: nat)
    ensures
        decimal(n).len() >= 1,
        forall|i: int| 0 <= i < decimal(n).len() ==> is_digit(#[trigger] decimal(n)[i]),
    decreases n,
{
    if n >= 10 {
        lemma_decimal_digits(n / 10);
    }
}

/// Two numbers with the same digits are the same number.
pub proof fn lemma_decimal_injective(n: nat, m: nat)
    requires
        decimal(n) == decimal(m),
    ensures
        n == m,
    decreases n,
{
    lemma_decimal_digits(n / 10);
    lemma_decimal_digits(m / 10);
    if n < 10 {
        if m >= 10 {
            assert(decimal(m).len() >= 2);
        } else {
            assert(decimal(n)[0] == (DIGIT_ZERO + n) as u8);
            assert(decimal(m)[0] == (DIGIT_ZERO + m) as u8);
        }
    } else {
        if m < 10 {
            assert(decimal(n).len() >= 2);
        } else {
            let a = decimal(n / 10);
            let b = decimal(m / 10);
            assert(decimal(n).last() == (DIGIT_ZERO + n % 10) as u8);
            assert(decimal(m).last() == (DIGIT_ZERO + m % 10) as u8);
            assert(n % 10 == m % 10);
            assert(decimal(n).drop_last() =~= a);
            assert(decimal(m).drop_last() =~= b);
            lemma_decimal_injective(n / 10, m / 10);
            assert(n == 10 * (n / 10) + n % 10);
            assert(m == 10 * (m / 10) + m % 10);
        }
    }
}

/// Where two byte strings are each a number in decimal followed by a byte
/// that is no digit, and the two are equal, the numbers are the same and so
/// is what follows them.
pub proof fn lemma_decimal_delimited(n: nat, m: nat, x: Seq<u8>, y: Seq<u8>)
    requires
        decimal(n) + x == decimal(m) + y,
        x.len() > 0 && !is_digit(x[0]),
        y.len() > 0 && !is_digit(y[0]),
    ensures
        n == m,
        x == y,
{
    let a = decimal(n);
    let b = decimal(m);
    lemma_decimal_digits(n);
    lemma_decimal_digits(m);
    if a.len() < b.len() {
        assert((a + x)[a.len() as int] == x[0]);
        assert((b + y)[a.len() as int] == b[a.len() as int]);
    } else if b.len() < a.len() {
        assert((b + y)[b.len() as int] == y[0]);
        assert((a + x)[b.len() as int] == a[b.len() as int]);
    } else {
        assert forall|i: int| 0 <= i < a.len() implies a[i] == b[i] by {
            assert((a + x)[i] == a[i]);
            assert((b + y)[i] == b[i]);
        }
        assert(a =~= b);
        lemma_decimal_injective(n, m);
        assert(x =~= (a + x).subrange(a.len() as int, (a + x).len() as int));
        assert(y =~= (b + y).subrange(b.len() as int, (b + y).len() as int));
    }
}

/// Where two byte strings are each the encoding of a byte string followed by
/// more bytes, and the two are equal, the byte strings are the same and so
/// is what follows them.
pub proof fn lemma_bytes_unique(a: Seq<u8>, b: Seq<u8>, x: Seq<u8>, y: Seq<u8>)
    requires
        bytes_encoding(a) + x == bytes_encoding(b) + y,
    ensures
        a == b,
        x == y,
{
    let ax = seq![COLON] + a + x;
    let by = seq![COLON] + b + y;
    assert(bytes_encoding(a) + x =~= decimal(a.len()) + ax);
    assert(bytes_encoding(b) + y =~= decimal(b.len()) + by);
    assert(ax[0] == COLON);
    assert(by[0] == COLON);
    lemma_decimal_delimited(a.len(), b.len(), ax, by);
    assert(a =~= ax.subrange(1, 1 + a.len() as int));
    assert(b =~= by.subrange(1, 1 + b.len() as int));
    assert(x =~= ax.subrange(1 + a.len() as int, ax.len() as int));
    assert(y =~= by.subrange(1 + b.len() as int, by.len() as int));
}

/// Where two byte strings are each an integer in decimal followed by the
/// byte `e`, and the two are equal, the integers are the same and so is
/// what follows them.
pub proof fn lemma_integer_unique(i: int, j: int, x: Seq<u8>, y: Seq<u8>)
    requires
        decimal_int(i) + seq![END] + x == decimal_int(j) + seq![END] + y,
    ensures
        i == j,
        x == y,
{
    let ex = seq![END] + x;
    let ey = seq![END] + y;
    assert(ex[0] == END);
    assert(ey[0] == END);
    let left = decimal_int(i) + seq![END] + x;
    let right = decimal_int(j) + seq![END] + y;
    lemma_decimal_digits(if i < 0 { (-i) as nat } else { i as nat });
    lemma_decimal_digits(if j < 0 { (-j) as nat } else { j as nat });
    if i < 0 {
        assert(left[0] == MINUS);
        if j < 0 {
            let a = decimal((-i) as nat);
            let b = decimal((-j) as nat);
            assert(a + ex =~= left.subrange(1, left.len() as int));
            assert(b + ey =~= right.subrange(1, right.len() as int));
            lemma_decimal_delimited((-i) as nat, (-j) as nat, ex, ey);
        } else {
            assert(right[0] == decimal(j as nat)[0]);
        }
    } else {
        assert(left[0] == decimal(i as nat)[0]);
        if j < 0 {
            assert(right[0] == MINUS);
        } else {
            assert(left =~= decimal(i as nat) + ex);
            assert(right =~= decimal(j as nat) + ey);
            lemma_decimal_delimited(i as nat, j as nat, ex, ey);
        }
    }
    assert(x =~= ex.subrange(1, ex.len() as int));
    assert(y =~= ey.subrange(1, ey.len() as int));
}

/// The encodings of the items from place `k` on, one after the other.
pub open spec fn items_from(items: Seq<Bencode>, k: nat) -> Seq<u8>
    decreases items.len() - k,
{
    if k >= items.len() {
        Seq::empty()
    } else {
        encoding(items[k as int]) + items_from(items, k + 1)
    }
}

/// The encodings of the entries from place `k` on, one after the other.
pub open spec fn entries_from(entries: Seq<(Seq<u8>, Bencode)>, k: nat) -> Seq<u8>
    decreases entries.len() - k,
{
    if k >= entries.len() {
        Seq::empty()
    } else {
        bytes_encoding(entries[k as int].0) + encoding(entries[k as int].1) + entries_from(
            entries,
            k + 1,
        )
    }
}

/// The encodings of all the items are those of the first `n`, then those of
/// the rest.
pub proof fn lemma_items_split(items: Seq<Bencode>, n: nat)
    requires
        n <= items.len(),
    ensures
        items_encoding(items, n) + items_from(items, n) == items_encoding(items, items.len()),
    decreases items.len() - n,
{
    if n < items.len() {
        lemma_items_split(items, n + 1);
        assert(items_encoding(items, n) + items_from(items, n) =~= items_encoding(items, n + 1)
            + items_from(items, n + 1));
    } else {
        assert(items_encoding(items, n) + items_from(items, n) =~= items_encoding(items, n));
    }
}

/// The encodings of all the entries are those of the first `n`, then those
/// of the rest.
pub proof fn lemma_entries_split(entries: Seq<(Seq<u8>, Bencode)>, n: nat)
    requires
        n <= entries.len(),
    ensures
        entries_encoding(entries, n) + entries_from(entries, n) == entries_encoding(
            entries,
            entries.len(),
        ),
    decreases entries.len() - n,
{
    if n < entries.len() {
        lemma_entries_split(entries, n + 1);
        assert(entries_encoding(entries, n) + entries_from(entries, n) =~= entries_encoding(
            entries,
            n + 1,
        ) + entries_from(entries, n + 1));
    } else {
        assert(entries_encoding(entries, n) + entries_from(entries, n) =~= entries_encoding(
            entries,
            n,
        ));
    }
}

/// The first byte of an encoding shows the shape of the value, and is never
/// the byte `e`.
pub proof fn lemma_first_byte(value: Bencode)
    ensures
        encoding(value).len() >= 2,
        match value {
            Bencode::Integer(_) => encoding(value)[0] == INTEGER_START,
            Bencode::Bytes(_) => is_digit(encoding(value)[0]),
            Bencode::List(_) => encoding(value)[0] == LIST_START,
            Bencode::Dict(_) => encoding(value)[0] == DICT_START,
        },
{
    match value {
        Bencode::Bytes(bytes) => {
            lemma_decimal_digits(bytes.len());
            assert(encoding(value)[0] == decimal(bytes.len())[0]);
        },
        _ => {},
    }
}

/// The number of items of a list, or of entries of a dictionary.
pub open spec fn width(value: Bencode) -> nat {
    match value {
        Bencode::List(items) => items.len(),
        Bencode::Dict(entries) => entries.len(),
        _ => 0,
    }
}

/// No encoding is the start of another: where two byte strings are each the
/// encoding of a value followed by more bytes, and the two are equal, the
/// values are the same and so is what follows them.
pub proof fn law_encoding_is_prefix_free(a: Bencode, b: Bencode, x: Seq<u8>, y: Seq<u8>)
    requires
        encoding(a) + x == encoding(b) + y,
    ensures
        a == b,
        x == y,
    decreases a, width(a) + 1,
{
    lemma_first_byte(a);
    lemma_first_byte(b);
    let left = encoding(a) + x;
    let right = encoding(b) + y;
    assert(left[0] == encoding(a)[0]);
    assert(right[0] == encoding(b)[0]);
    match a {
        Bencode::Integer(i) => {
            let j = b->Integer_0;
            assert(decimal_int(i as int) + seq![END] + x =~= left.subrange(1, left.len() as int));
            assert(decimal_int(j as int) + seq![END] + y =~= right.subrange(
                1,
                right.len() as int,
            ));
            lemma_integer_unique(i as int, j as int, x, y);
        },
        Bencode::Bytes(bytes) => {
            lemma_bytes_unique(bytes, b->Bytes_0, x, y);
        },
        Bencode::List(items) => {
            let others = b->List_0;
            lemma_items_split(items, 0);
            lemma_items_split(others, 0);
            assert(items_from(items, 0) =~= items_encoding(items, items.len()));
            assert(items_from(others, 0) =~= items_encoding(others, others.len()));
            assert(items_from(items, 0) + seq![END] + x =~= left.subrange(1, left.len() as int));
            assert(items_from(others, 0) + seq![END] + y =~= right.subrange(
                1,
                right.len() as int,
            ));
            lemma_items_unique(items, others, 0, x, y);
        },
        Bencode::Dict(entries) => {
            let others = b->Dict_0;
            lemma_entries_split(entries, 0);
            lemma_entries_split(others, 0);
            assert(entries_from(entries, 0) =~= entries_encoding(entries, entries.len()));
            assert(entries_from(others, 0) =~= entries_encoding(others, others.len()));
            assert(entries_from(entries, 0) + seq![END] + x =~= left.subrange(
                1,
                left.len() as int,
            ));
            assert(entries_from(others, 0) + seq![END] + y =~= right.subrange(
                1,
                right.len() as int,
            ));
            lemma_entries_unique(entries, others, 0, x, y);
        },
    }
}

/// Two lists that agree on their first `k` items, and whose other items are
/// encoded, closed and followed by more bytes to the same byte string, are
/// the same list, followed by the same bytes.
pub proof fn lemma_items_unique(a: Seq<Bencode>, b: Seq<Bencode>, k: nat, x: Seq<u8>, y: Seq<u8>)
    requires
        k <= a.len(),
        k <= b.len(),
        forall|j: int| 0 <= j < k ==> a[j] == b[j],
        items_from(a, k) + seq![END] + x == items_from(b, k) + seq![END] + y,
    ensures
        a == b,
        x == y,
    decreases Bencode::List(a), a.len() - k,
{
    let left = items_from(a, k) + seq![END] + x;
    let right = items_from(b, k) + seq![END] + y;
    if k < a.len() {
        lemma_first_byte(a[k as int]);
    }
    if k < b.len() {
        lemma_first_byte(b[k as int]);
    }
    if k == a.len() {
        assert(left[0] == END);
        if k < b.len() {
            assert(right[0] == encoding(b[k as int])[0]);
        } else {
            assert(a =~= b);
            assert(x =~= left.subrange(1, left.len() as int));
            assert(y =~= right.subrange(1, right.len() as int));
        }
    } else if k == b.len() {
        assert(right[0] == END);
        assert(left[0] == encoding(a[k as int])[0]);
    } else {
        let rest_a = items_from(a, k + 1) + seq![END] + x;
        let rest_b = items_from(b, k + 1) + seq![END] + y;
        assert(left =~= encoding(a[k as int]) + rest_a);
        assert(right =~= encoding(b[k as int]) + rest_b);
        assert(decreases_to!(Bencode::List(a) => Bencode::List(a)->List_0));
        assert(decreases_to!(a => a[k as int]));
        law_encoding_is_prefix_free(a[k as int], b[k as int], rest_a, rest_b);
        lemma_items_unique(a, b, k + 1, x, y);
    }
}

/// Two dictionaries that agree on their first `k` entries, and whose other
/// entries are encoded, closed and followed by more bytes to the same byte
/// string, are the same dictionary, followed by the same bytes.
pub proof fn lemma_entries_unique(
    a: Seq<(Seq<u8>, Bencode)>,
    b: Seq<(Seq<u8>, Bencode)>,
    k: nat,
    x: Seq<u8>,
    y: Seq<u8>,
)
    requires
        k <= a.len(),
        k <= b.len(),
        forall|j: int| 0 <= j < k ==> a[j] == b[j],
        entries_from(a, k) + seq![END] + x == entries_from(b, k) + seq![END] + y,
    ensures
        a == b,
        x == y,
    decreases Bencode::Dict(a), a.len() - k,
{
    let left = entries_from(a, k) + seq![END] + x;
    let right = entries_from(b, k) + seq![END] + y;
    if k < a.len() {
        lemma_decimal_digits(a[k as int].0.len());
        assert(entries_from(a, k)[0] == decimal(a[k as int].0.len())[0]);
    }
    if k < b.len() {
        lemma_decimal_digits(b[k as int].0.len());
        assert(entries_from(b, k)[0] == decimal(b[k as int].0.len())[0]);
    }
    if k == a.len() {
        assert(left[0] == END);
        if k < b.len() {
            assert(right[0] == entries_from(b, k)[0]);
        } else {
            assert(a =~= b);
            assert(x =~= left.subrange(1, left.len() as int));
            assert(y =~= right.subrange(1, right.len() as int));
        }
    } else if k == b.len() {
        assert(right[0] == END);
        assert(left[0] == entries_from(a, k)[0]);
    } else {
        let rest_a = entries_from(a, k + 1) + seq![END] + x;
        let rest_b = entries_from(b, k + 1) + seq![END] + y;
        let after_key_a = encoding(a[k as int].1) + rest_a;
        let after_key_b = encoding(b[k as int].1) + rest_b;
        assert(left =~= bytes_encoding(a[k as int].0) + after_key_a);
        assert(right =~= bytes_encoding(b[k as int].0) + after_key_b);
        lemma_bytes_unique(a[k as int].0, b[k as int].0, after_key_a, after_key_b);
        assert(decreases_to!(Bencode::Dict(a) => Bencode::Dict(a)->Dict_0));
        assert(decreases_to!(a => a[k as int]));
        assert(decreases_to!(a[k as int] => a[k as int].1));
        law_encoding_is_prefix_free(a[k as int].1, b[k as int].1, rest_a, rest_b);
        lemma_entries_unique(a, b, k + 1, x, y);
    }
}

/// Two values with the same encoding are the same value.
pub proof fn law_encoding_is_injective(a: Bencode, b: Bencode)
    requires
        encoding(a) == encoding(b),
    ensures
        a == b,
{
    law_encoding_is_prefix_free(a, b, Seq::empty(), Seq::empty());
}

} // verus!
