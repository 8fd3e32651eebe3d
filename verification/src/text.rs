//! Byte strings and text: ASCII literals as bytes, comparison of byte
//! strings, and decimal rendering of numbers.

use vstd::prelude::*;
use vstd::string::StringSliceAdditionalSpecFns;
use vstd::utf8::{decode_utf8, encode_utf8, valid_utf8};

verus! {

/// The bytes of a text whose characters are all ASCII: one byte for each
/// character.
pub open spec fn ascii_bytes(s: Seq<char>) -> Seq<u8> {
    Seq::new(s.len(), |i: int| s[i] as u8)
}

/// The characters of a byte string that holds only ASCII: one character for
/// each byte.
pub open spec fn ascii_chars(b: Seq<u8>) -> Seq<char> {
    Seq::new(b.len(), |i: int| b[i] as char)
}

/// True when every byte is below 128.
pub open spec fn all_ascii(b: Seq<u8>) -> bool {
    forall|i: int| 0 <= i < b.len() ==> b[i] < 128
}

/// The bytes of an ASCII string literal.
pub(crate) fn literal_bytes(s: &'static str) -> (bytes: &'static [u8])
    requires
        s.is_ascii(),
    ensures
        bytes@ == ascii_bytes(s@),
{
    broadcast use vstd::string::is_ascii_spec_bytes;

    let bytes = s.as_bytes();
    assert(bytes@ =~= ascii_bytes(s@));
    bytes
}

/// True when the two byte strings hold the same bytes.
pub fn bytes_eq(a: &[u8], b: &[u8]) -> (same: bool)
    ensures
        same == (a@ == b@),
{
    if a.len() != b.len() {
        return false;
    }
    let mut i: usize = 0;
    while i < a.len()
        invariant
            a.len() == b.len(),
            i <= a.len(),
            forall|j: int| 0 <= j < i ==> a@[j] == b@[j],
        decreases a.len() - i,
    {
        if a[i] != b[i] {
            return false;
        }
        i += 1;
    }
    assert(a@ =~= b@);
    true
}

/// Byte-lexicographic order: `a` comes strictly before `b` when, at the first
/// place where they differ, `a` has ended or holds the smaller byte.
pub open spec fn bytes_lt(a: Seq<u8>, b: Seq<u8>) -> bool {
    exists|k: int| #[trigger] differ_at(a, b, k)
}

/// `a` and `b` agree on the first `k` bytes, and at place `k` the string `a`
/// has ended while `b` goes on, or holds the smaller byte.
pub open spec fn differ_at(a: Seq<u8>, b: Seq<u8>, k: int) -> bool {
    &&& 0 <= k <= a.len()
    &&& k < b.len()
    &&& a.take(k) == b.take(k)
    &&& (k == a.len() || a[k] < b[k])
}

/// Compares two byte strings in byte-lexicographic order.
pub fn is_bytes_lt(a: &[u8], b: &[u8]) -> (before: bool)
    ensures
        before == bytes_lt(a@, b@),
{
    let mut i: usize = 0;
    while i < a.len() && i < b.len()
        invariant
            i <= a.len(),
            i <= b.len(),
            a@.take(i as int) == b@.take(i as int),
        decreases a.len() - i,
    {
        if a[i] != b[i] {
            let before = a[i] < b[i];
            proof {
                if before {
                    assert(differ_at(a@, b@, i as int));
                } else {
                    assert forall|k: int| !differ_at(a@, b@, k) by {
                        if differ_at(a@, b@, k) {
                            lemma_first_difference(a@, b@, i as int, k);
                        }
                    }
                }
            }
            return before;
        }
        proof {
            assert(a@.take(i + 1) =~= a@.take(i as int).push(a@[i as int]));
            assert(b@.take(i + 1) =~= b@.take(i as int).push(b@[i as int]));
        }
        i += 1;
    }
    let before = i < b.len();
    proof {
        if before {
            assert(differ_at(a@, b@, i as int));
        } else {
            assert(b@.take(i as int) =~= b@);
            assert forall|k: int| !differ_at(a@, b@, k) by {
                if differ_at(a@, b@, k) {
                    assert(a@.take(i as int).take(k) =~= a@.take(k));
                    assert(b@.take(i as int).take(k) =~= b@.take(k));
                    if k < a@.len() {
                        assert(a@.take(i as int)[k] == a@[k]);
                        assert(b@.take(i as int)[k] == b@[k]);
                    }
                }
            }
        }
    }
    before
}

/// Where two strings agree up to place `i` and hold different bytes there,
/// `i` is the only place at which they can differ first.
proof fn lemma_first_difference(a: Seq<u8>, b: Seq<u8>, i: int, k: int)
    requires
        0 <= i < a.len(),
        i < b.len(),
        a.take(i) == b.take(i),
        a[i] != b[i],
        differ_at(a, b, k),
    ensures
        k == i,
{
    if k < i {
        assert(a.take(i)[k] == a[k]);
        assert(b.take(i)[k] == b[k]);
    } else if k > i {
        assert(a.take(k)[i] == a[i]);
        assert(b.take(k)[i] == b[i]);
    }
}

/// The byte `0`, the first of the ten decimal digits.
pub const DIGIT_ZERO: u8 = 48;

/// The byte `-`.
pub const MINUS: u8 = 45;

/// The decimal digits of a natural number, most significant first, without
/// leading zeros.
pub open spec fn decimal(n: nat) -> Seq<u8>
    decreases n,
{
    if n < 10 {
        seq![(DIGIT_ZERO + n) as u8]
    } else {
        decimal(n / 10).push((DIGIT_ZERO + n % 10) as u8)
    }
}

/// An integer in decimal: a minus sign before the digits of a negative one.
pub open spec fn decimal_int(i: int) -> Seq<u8> {
    if i < 0 {
        seq![MINUS] + decimal((-i) as nat)
    } else {
        decimal(i as nat)
    }
}

/// Appends the decimal digits of `n` to `out`.
pub fn push_decimal(n: u128, out: &mut Vec<u8>)
    ensures
        final(out)@ == old(out)@ + decimal(n as nat),
    decreases n,
{
    if n >= 10 {
        push_decimal(n / 10, out);
    }
    let digit: u8 = (n % 10) as u8;
    out.push(DIGIT_ZERO + digit);
    proof {
        if n < 10 {
            assert(final(out)@ =~= old(out)@ + decimal(n as nat));
        } else {
            assert(final(out)@ =~= old(out)@ + decimal(n as nat));
        }
    }
}

/// Appends an integer in decimal to `out`.
pub fn push_decimal_int(i: i64, out: &mut Vec<u8>)
    ensures
        final(out)@ == old(out)@ + decimal_int(i as int),
{
    if i < 0 {
        out.push(MINUS);
        let magnitude: u128 = (-(i as i128)) as u128;
        push_decimal(magnitude, out);
        assert(final(out)@ =~= old(out)@ + decimal_int(i as int));
    } else {
        push_decimal(i as u128, out);
    }
}

/// `String::from_utf8` of the standard library: the text that the bytes
/// spell, where they are valid UTF-8, and nothing where they are not.
#[verifier::external_body]
pub(crate) fn text_from_utf8(bytes: &[u8]) -> (text: Option<String>)
    ensures
        match text {
            Some(text) => valid_utf8(bytes@) && text@ == decode_utf8(bytes@),
            None => !valid_utf8(bytes@),
        },
{
    String::from_utf8(bytes.to_vec()).ok()
}

/// The UTF-8 bytes of a text.
pub fn text_bytes(text: &String) -> (bytes: Vec<u8>)
    ensures
        bytes@ == encode_utf8(text@),
{
    let mut bytes: Vec<u8> = Vec::new();
    bytes.extend_from_slice(text.as_str().as_bytes());
    assert(bytes@ =~= encode_utf8(text@));
    bytes
}

/// Bytes below 128 are valid UTF-8, and spell one character each.
pub proof fn lemma_ascii_is_utf8(bytes: Seq<u8>)
    requires
        all_ascii(bytes),
    ensures
        valid_utf8(bytes),
        decode_utf8(bytes) == ascii_chars(bytes),
        encode_utf8(ascii_chars(bytes)) == bytes,
{
    let chars = ascii_chars(bytes);
    assert forall|i: int| 0 <= i < chars.len() implies '\0' <= #[trigger] chars[i] <= '\u{7f}' by {
        assert(bytes[i] < 128);
    }
    vstd::utf8::is_ascii_chars_encode_utf8(chars);
    assert forall|i: int| 0 <= i < bytes.len() implies encode_utf8(chars)[i] == bytes[i] by {
        assert(chars[i] as u8 == encode_utf8(chars)[i]);
        assert(bytes[i] < 128);
    }
    assert(encode_utf8(chars) =~= bytes);
    vstd::utf8::encode_utf8_valid_utf8(chars);
    vstd::utf8::encode_utf8_decode_utf8(chars);
}

/// The text that ASCII bytes spell.
pub(crate) fn ascii_text(bytes: &[u8]) -> (text: String)
    requires
        all_ascii(bytes@),
    ensures
        text@ == ascii_chars(bytes@),
{
    proof {
        lemma_ascii_is_utf8(bytes@);
    }
    match text_from_utf8(bytes) {
        Some(text) => text,
        None => String::new(),
    }
}

/// The digits of a number in decimal are ASCII.
pub proof fn lemma_decimal_is_ascii(n: nat)
    ensures
        all_ascii(decimal(n)),
    decreases n,
{
    if n >= 10 {
        lemma_decimal_is_ascii(n / 10);
    }
}

/// A natural number as decimal text.
pub fn decimal_text(n: u128) -> (text: String)
    ensures
        text@ == ascii_chars(decimal(n as nat)),
{
    let mut out: Vec<u8> = Vec::new();
    push_decimal(n, &mut out);
    proof {
        lemma_decimal_is_ascii(n as nat);
        assert(out@ =~= decimal(n as nat));
    }
    ascii_text(out.as_slice())
}

/// No byte string comes before itself.
pub proof fn lemma_bytes_lt_irreflexive(a: Seq<u8>)
    ensures
        !bytes_lt(a, a),
{
}

/// The order of byte strings is transitive.
pub proof fn lemma_bytes_lt_transitive(a: Seq<u8>, b: Seq<u8>, c: Seq<u8>)
    requires
        bytes_lt(a, b),
        bytes_lt(b, c),
    ensures
        bytes_lt(a, c),
{
    let k1 = choose|k: int| #[trigger] differ_at(a, b, k);
    let k2 = choose|k: int| #[trigger] differ_at(b, c, k);
    if k1 <= k2 {
        assert(b.take(k2).take(k1) =~= b.take(k1));
        assert(c.take(k2).take(k1) =~= c.take(k1));
        if k1 < k2 {
            assert(b.take(k2)[k1] == b[k1]);
            assert(c.take(k2)[k1] == c[k1]);
        }
        assert(differ_at(a, c, k1));
    } else {
        assert(a.take(k1).take(k2) =~= a.take(k2));
        assert(b.take(k1).take(k2) =~= b.take(k2));
        assert(a.take(k1)[k2] == a[k2]);
        assert(b.take(k1)[k2] == b[k2]);
        assert(differ_at(a, c, k2));
    }
}

/// Of two byte strings that differ, one comes before the other.
pub proof fn lemma_bytes_lt_total(a: Seq<u8>, b: Seq<u8>)
    ensures
        a == b || bytes_lt(a, b) || bytes_lt(b, a),
{
    assert(a.take(0) =~= b.take(0));
    lemma_bytes_lt_total_from(a, b, 0);
}

/// Totality, for strings that agree on their first `i` bytes.
proof fn lemma_bytes_lt_total_from(a: Seq<u8>, b: Seq<u8>, i: int)
    requires
        0 <= i <= a.len(),
        i <= b.len(),
        a.take(i) == b.take(i),
    ensures
        a == b || bytes_lt(a, b) || bytes_lt(b, a),
    decreases a.len() - i,
{
    if i == a.len() {
        if i == b.len() {
            assert(a.take(i) =~= a);
            assert(b.take(i) =~= b);
        } else {
            assert(differ_at(a, b, i));
        }
    } else if i == b.len() {
        assert(differ_at(b, a, i));
    } else if a[i] < b[i] {
        assert(differ_at(a, b, i));
    } else if b[i] < a[i] {
        assert(differ_at(b, a, i));
    } else {
        assert(a.take(i + 1) =~= a.take(i).push(a[i]));
        assert(b.take(i + 1) =~= b.take(i).push(b[i]));
        lemma_bytes_lt_total_from(a, b, i + 1);
    }
}

/// An integer as decimal text.
pub fn decimal_int_text(i: i128) -> (text: String)
    ensures
        text@ == ascii_chars(decimal_int(i as int)),
{
    let mut out: Vec<u8> = Vec::new();
    if i < 0 {
        out.push(MINUS);
        let magnitude: u128 = ((-(i + 1)) as u128) + 1;
        push_decimal(magnitude, &mut out);
        proof {
            lemma_decimal_is_ascii(magnitude as nat);
            assert(out@ =~= decimal_int(i as int));
        }
    } else {
        push_decimal(i as u128, &mut out);
        proof {
            lemma_decimal_is_ascii(i as nat);
            assert(out@ =~= decimal_int(i as int));
        }
    }
    ascii_text(out.as_slice())
}

} // verus!
