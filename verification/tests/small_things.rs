use bendy::decoding::FromBencode;
use bendy::encoding::ToBencode;
use brs::bencode::{dict_get, dict_insert, BencodeValue, DictEntry};
use brs::decoding::decode;
use brs::error::{Field, Kind, SchemaError};
use brs::peer::gen_peer_id;
use brs::skip_empty;
use brs::text::{bytes_eq, decimal_int_text, decimal_text, is_bytes_lt};

#[test]
fn empty_values_are_skipped() {
    assert!(skip_empty::i64(&0));
    assert!(!skip_empty::i64(&5));
    assert!(!skip_empty::i64(&-1));
    assert!(skip_empty::bool(&false));
    assert!(!skip_empty::bool(&true));
    assert!(skip_empty::string(&String::new()));
    assert!(!skip_empty::string(&"x".to_string()));
}

#[test]
fn peer_id_has_twenty_bytes() {
    let id = gen_peer_id(None);
    assert_eq!(id.len(), 20);
    assert!(id.starts_with("-B010-"));
    assert!(id[6..].chars().all(|c| c.is_ascii_alphanumeric()));
    let id = gen_peer_id(Some("-XY1234-".to_string()));
    assert_eq!(id.len(), 20);
    assert!(id.starts_with("-XY1234-"));
    assert!(id[8..].chars().all(|c| c.is_ascii_alphanumeric()));
    assert_eq!(gen_peer_id(Some("01234567890123456789".to_string())), "01234567890123456789");
}

#[test]
fn numbers_are_written_in_decimal() {
    assert_eq!(decimal_text(0), "0");
    assert_eq!(decimal_text(7), "7");
    assert_eq!(decimal_text(1234567890), "1234567890");
    assert_eq!(decimal_text(u128::MAX), u128::MAX.to_string());
    assert_eq!(decimal_int_text(-1), "-1");
    assert_eq!(decimal_int_text(i128::MIN), i128::MIN.to_string());
    assert_eq!(decimal_int_text(i128::MAX), i128::MAX.to_string());
}

#[test]
fn byte_strings_are_ordered_by_their_bytes() {
    assert!(is_bytes_lt(b"", b"a"));
    assert!(!is_bytes_lt(b"", b""));
    assert!(is_bytes_lt(b"a", b"ab"));
    assert!(!is_bytes_lt(b"ab", b"a"));
    assert!(is_bytes_lt(b"ab", b"b"));
    assert!(is_bytes_lt(b"a\x7f", b"a\x80"));
    assert!(!is_bytes_lt(b"abc", b"abc"));
    assert!(bytes_eq(b"abc", b"abc"));
    assert!(!bytes_eq(b"abc", b"abd"));
    assert!(!bytes_eq(b"abc", b"ab"));
}

#[test]
fn extraction_names_the_kinds() {
    let int = BencodeValue::Integer(3);
    let bytes = BencodeValue::Bytes(b"x".to_vec());
    let list = BencodeValue::List(vec![]);
    let dict = BencodeValue::Dict(vec![]);
    assert_eq!(int.expect_int(), Ok(3));
    assert_eq!(bytes.expect_bytes(), Ok(&b"x".to_vec()));
    assert_eq!(list.expect_list(), Ok(&vec![]));
    assert_eq!(dict.expect_dict(), Ok(&vec![]));
    assert_eq!(
        bytes.expect_int(),
        Err(SchemaError::TypeMismatch { expected: Kind::Integer, found: Kind::Bytes })
    );
    assert_eq!(
        list.expect_bytes(),
        Err(SchemaError::TypeMismatch { expected: Kind::Bytes, found: Kind::List })
    );
    assert_eq!(
        dict.expect_list(),
        Err(SchemaError::TypeMismatch { expected: Kind::List, found: Kind::Dict })
    );
    assert_eq!(
        int.expect_dict(),
        Err(SchemaError::TypeMismatch { expected: Kind::Dict, found: Kind::Integer })
    );
    assert_eq!(int.kind(), Kind::Integer);
}

#[test]
fn dictionary_keeps_its_keys_in_order() {
    let mut entries: Vec<DictEntry> = Vec::new();
    dict_insert(&mut entries, b"m".to_vec(), BencodeValue::Integer(1));
    dict_insert(&mut entries, b"a".to_vec(), BencodeValue::Integer(2));
    dict_insert(&mut entries, b"z".to_vec(), BencodeValue::Integer(3));
    dict_insert(&mut entries, b"mm".to_vec(), BencodeValue::Integer(4));
    dict_insert(&mut entries, b"m".to_vec(), BencodeValue::Integer(5));
    let keys: Vec<&[u8]> = entries.iter().map(|e| e.key.as_slice()).collect();
    assert_eq!(keys, vec![&b"a"[..], &b"m"[..], &b"mm"[..], &b"z"[..]]);
    assert_eq!(dict_get(&entries, b"m"), Some(&BencodeValue::Integer(5)));
    assert_eq!(dict_get(&entries, b"q"), None);
    assert_eq!(BencodeValue::Dict(entries).encode(), b"d1:ai2e1:mi5e2:mmi4e1:zi3ee".to_vec());
}

#[test]
fn copies_are_equal() {
    let value = decode(b"d1:al1:bi2ed1:ci3eee1:d0:e").unwrap();
    assert_eq!(value.clone(), value);
}

#[test]
fn integers_at_the_limits_are_encoded() {
    assert_eq!(BencodeValue::Integer(i64::MIN).encode(), b"i-9223372036854775808e".to_vec());
    assert_eq!(BencodeValue::Integer(i64::MAX).encode(), b"i9223372036854775807e".to_vec());
    assert_eq!(BencodeValue::Integer(0).encode(), b"i0e".to_vec());
    assert_eq!(decode(b"i-9223372036854775808e").unwrap(), BencodeValue::Integer(i64::MIN));
    assert!(decode(b"i9223372036854775808e").is_err());
    assert!(decode(b"i-0e").is_err());
    assert_eq!(BencodeValue::Bytes(vec![]).encode(), b"0:".to_vec());
}

#[test]
fn field_keys_are_their_names() {
    assert_eq!(Field::PieceLength.as_str(), "piece length");
    assert_eq!(Field::AnnounceList.key_bytes(), b"announce-list");
    assert_eq!(Field::FailureReason.key_vec(), b"failure reason".to_vec());
}

#[test]
fn deep_nesting_is_refused() {
    let mut deep = vec![b'l'; 100000];
    deep.extend(vec![b'e'; 100000]);
    assert!(decode(&deep).is_err());
    let mut fine = vec![b'l'; 128];
    fine.extend(vec![b'e'; 128]);
    assert_eq!(decode(&fine).unwrap().encode(), fine);
    let mut over = vec![b'l'; 129];
    over.extend(vec![b'e'; 129]);
    assert!(decode(&over).is_err());
}

#[test]
fn encoder_agrees_with_bendy() {
    for source in [
        &b"d1:al1:bi2ed1:ci3eee1:d0:e"[..],
        &b"li-5e3:abcd0:i0eee"[..],
        &b"d3:aaai5e5:filesld6:lengthi10e4:pathl1:a5:b.txteee4:name3:dire"[..],
    ] {
        let outside = bendy::value::Value::from_bencode(source).unwrap();
        assert_eq!(decode(source).unwrap().encode(), outside.to_bencode().unwrap());
    }
}

#[test]
fn trailing_bytes_are_not_looked_at() {
    assert_eq!(decode(b"i1exyz").unwrap(), BencodeValue::Integer(1));
}
