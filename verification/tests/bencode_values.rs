use brs::bencode::{BencodeValue, DictEntry};
use brs::decoding::decode;

#[test]
fn decodes_an_integer() {
    assert_eq!(decode(b"i42e").unwrap(), BencodeValue::Integer(42));
    assert_eq!(decode(b"i-7e").unwrap(), BencodeValue::Integer(-7));
}

#[test]
fn encodes_what_it_decoded() {
    let source: &[u8] = b"d3:bari1e3:fool4:spami-3eee";
    let value = decode(source).unwrap();
    assert_eq!(
        value,
        BencodeValue::Dict(vec![
            DictEntry { key: b"bar".to_vec(), value: BencodeValue::Integer(1) },
            DictEntry {
                key: b"foo".to_vec(),
                value: BencodeValue::List(vec![
                    BencodeValue::Bytes(b"spam".to_vec()),
                    BencodeValue::Integer(-3),
                ]),
            },
        ])
    );
    assert_eq!(value.encode(), source.to_vec());
}

#[test]
fn refuses_keys_out_of_order() {
    assert!(decode(b"d3:fooi1e3:bari2ee").is_err());
}
