use brs::bencode::{BencodeValue, DictEntry};
use brs::decoding::decode;
use brs::error::{Field, Kind, SchemaError};
use brs::torrent::info::from_bool_to_int;
use brs::torrent::{FileMode, Torrent, TorrentError, TorrentFile, TorrentInfo};

const SINGLE: &[u8] = b"d8:announce31:http://tracker.example/announce7:comment8:a sample10:created by3:brs13:creation datei1700000000e4:infod6:lengthi20000e4:name10:sample.txt12:piece lengthi16384e6:pieces40:\x00\x01\x02\x03\x04\x05\x06\x07\x08\x09\x0a\x0b\x0c\x0d\x0e\x0f\x10\x11\x12\x13defghijklmnopqrstuvwe9:x-unknownli1e3:twoee";
const SINGLE_INFO: &[u8] = b"d6:lengthi20000e4:name10:sample.txt12:piece lengthi16384e6:pieces40:\x00\x01\x02\x03\x04\x05\x06\x07\x08\x09\x0a\x0b\x0c\x0d\x0e\x0f\x10\x11\x12\x13defghijklmnopqrstuvwe";
const SINGLE_HASH: &str = "d3b12251cc3ebbc4e83a6554a150af93db1df9cf";
const MULTI: &[u8] = b"d8:announce10:http://t/a13:announce-listl10:http://t/b10:http://t/ce8:encoding5:UTF-84:infod3:aaai5e5:filesld6:lengthi10e4:pathl1:a5:b.txteed6:lengthi32e4:pathl5:c.bineee4:name3:dir12:piece lengthi32768e6:pieces20:\x00\x01\x02\x03\x04\x05\x06\x07\x08\x09\x0a\x0b\x0c\x0d\x0e\x0f\x10\x11\x12\x137:privatei1e6:source3:xyze8:url-listl10:http://w/xee";
const MULTI_INFO: &[u8] = b"d3:aaai5e5:filesld6:lengthi10e4:pathl1:a5:b.txteed6:lengthi32e4:pathl5:c.bineee4:name3:dir12:piece lengthi32768e6:pieces20:\x00\x01\x02\x03\x04\x05\x06\x07\x08\x09\x0a\x0b\x0c\x0d\x0e\x0f\x10\x11\x12\x137:privatei1e6:source3:xyze";
const MULTI_HASH: &str = "87f9ae1d8c41ccb61d35f6dfe185f38dca9afe84";

fn schema_error(bytes: &[u8]) -> SchemaError {
    match Torrent::parse_bytes(bytes) {
        Err(TorrentError::Schema(e)) => e,
        other => panic!("expected a schema error, got {:?}", other),
    }
}

fn hex(bytes: &[u8]) -> String {
    bytes.iter().map(|b| format!("{:02x}", b)).collect()
}

#[test]
fn parses_a_single_file_torrent() {
    let torrent = Torrent::parse_bytes(SINGLE).unwrap();
    assert_eq!(torrent.announce, "http://tracker.example/announce");
    assert!(torrent.announce_list.is_empty());
    assert_eq!(torrent.info.name, "sample.txt");
    assert_eq!(torrent.info.piece_length, 16384);
    assert_eq!(torrent.info.pieces.len(), 2);
    assert_eq!(torrent.info.pieces[0].to_vec(), (0u8..20).collect::<Vec<u8>>());
    assert_eq!(torrent.info.pieces[1].to_vec(), (100u8..120).collect::<Vec<u8>>());
    assert_eq!(torrent.info.mode, FileMode::SingleFile { length: 20000 });
    assert!(!torrent.info.additional_fields.private);
    assert!(torrent.info.additional_fields.extra_fields.is_empty());
    assert_eq!(torrent.additional_fields.created_by.as_deref(), Some("brs"));
    assert_eq!(torrent.additional_fields.creation_date, Some(1700000000));
    assert_eq!(torrent.additional_fields.comment.as_deref(), Some("a sample"));
    assert_eq!(torrent.additional_fields.encoding, None);
    assert!(torrent.additional_fields.url_list.is_empty());
}

#[test]
fn parses_a_multi_file_torrent() {
    let torrent = Torrent::parse_bytes(MULTI).unwrap();
    assert_eq!(torrent.announce_list, vec!["http://t/b".to_string(), "http://t/c".to_string()]);
    assert_eq!(
        torrent.info.mode,
        FileMode::MultiFile {
            files: vec![
                TorrentFile { path: vec!["a".to_string(), "b.txt".to_string()], length: 10 },
                TorrentFile { path: vec!["c.bin".to_string()], length: 32 },
            ]
        }
    );
    assert!(torrent.info.additional_fields.private);
    assert_eq!(torrent.additional_fields.encoding.as_deref(), Some("UTF-8"));
    assert_eq!(torrent.additional_fields.url_list, vec!["http://w/x".to_string()]);
}

#[test]
fn keeps_the_entries_that_the_schema_does_not_name() {
    let torrent = Torrent::parse_bytes(SINGLE).unwrap();
    assert_eq!(
        torrent.additional_fields.extra_fields,
        vec![DictEntry {
            key: b"x-unknown".to_vec(),
            value: BencodeValue::List(vec![
                BencodeValue::Integer(1),
                BencodeValue::Bytes(b"two".to_vec()),
            ]),
        }]
    );
    let torrent = Torrent::parse_bytes(MULTI).unwrap();
    assert_eq!(
        torrent.info.additional_fields.extra_fields,
        vec![
            DictEntry { key: b"aaa".to_vec(), value: BencodeValue::Integer(5) },
            DictEntry { key: b"source".to_vec(), value: BencodeValue::Bytes(b"xyz".to_vec()) },
        ]
    );
}

#[test]
fn info_hash_matches_the_reference() {
    let torrent = Torrent::parse_bytes(SINGLE).unwrap();
    assert_eq!(hex(&torrent.calc_hash()), SINGLE_HASH);
    assert_eq!(torrent.calc_hash_hex(), SINGLE_HASH);
    let torrent = Torrent::parse_bytes(MULTI).unwrap();
    assert_eq!(torrent.calc_hash().len(), 20);
    assert_eq!(torrent.calc_hash_hex(), MULTI_HASH);
    assert_eq!(hex(&torrent.info.info_hash()), MULTI_HASH);
}

#[test]
fn canonical_encoding_is_the_source_of_the_info_dictionary() {
    let torrent = Torrent::parse_bytes(SINGLE).unwrap();
    assert_eq!(torrent.info.encode_canonical(), SINGLE_INFO.to_vec());
    let torrent = Torrent::parse_bytes(MULTI).unwrap();
    assert_eq!(torrent.info.encode_canonical(), MULTI_INFO.to_vec());
}

#[test]
fn canonical_encoding_is_the_same_every_time() {
    let torrent = Torrent::parse_bytes(MULTI).unwrap();
    assert_eq!(torrent.info.encode_canonical(), torrent.info.encode_canonical());
}

#[test]
fn encoding_survives_a_round_trip() {
    let torrent = Torrent::parse_bytes(MULTI).unwrap();
    let bytes = torrent.info.encode_canonical();
    let again = TorrentInfo::from_value(&decode(&bytes).unwrap()).unwrap();
    assert_eq!(again, torrent.info);
    assert_eq!(again.encode_canonical(), bytes);
}

#[test]
fn whole_torrent_survives_a_round_trip() {
    for source in [SINGLE, MULTI] {
        let torrent = Torrent::parse_bytes(source).unwrap();
        assert_eq!(torrent.to_bytes(), source.to_vec());
        assert_eq!(Torrent::parse_bytes(&torrent.to_bytes()).unwrap(), torrent);
    }
}

#[test]
fn extension_fields_are_written_at_the_place_of_their_key() {
    let info = TorrentInfo {
        name: "n".to_string(),
        piece_length: 1,
        pieces: vec![],
        mode: FileMode::SingleFile { length: 0 },
        additional_fields: brs::torrent::TorrentInfoAdditionalFields {
            private: false,
            extra_fields: vec![
                DictEntry { key: b"a".to_vec(), value: BencodeValue::Integer(1) },
                DictEntry { key: b"md5".to_vec(), value: BencodeValue::Bytes(b"x".to_vec()) },
                DictEntry { key: b"z".to_vec(), value: BencodeValue::Integer(2) },
            ],
        },
    };
    assert_eq!(
        info.encode_canonical(),
        b"d1:ai1e6:lengthi0e3:md51:x4:name1:n12:piece lengthi1e6:pieces0:1:zi2ee".to_vec()
    );
}

#[test]
fn total_length_is_the_sum_of_the_files() {
    let torrent = Torrent::parse_bytes(MULTI).unwrap();
    assert_eq!(torrent.calc_download_lenght(), 42);
    let torrent = Torrent::parse_bytes(SINGLE).unwrap();
    assert_eq!(torrent.calc_download_lenght(), 20000);
}

#[test]
fn total_length_does_not_overflow() {
    let file = TorrentFile { path: vec!["f".to_string()], length: i64::MAX };
    let info = TorrentInfo {
        name: "n".to_string(),
        piece_length: 1,
        pieces: vec![],
        mode: FileMode::MultiFile { files: vec![file.clone(), file.clone(), file] },
        additional_fields: brs::torrent::TorrentInfoAdditionalFields {
            private: false,
            extra_fields: vec![],
        },
    };
    assert_eq!(info.total_length(), 3 * (i64::MAX as i128));
}

#[test]
fn both_length_and_files_is_ambiguous() {
    let bytes = b"d8:announce1:a4:infod5:filesld6:lengthi1e4:pathl1:xeee6:lengthi1e4:name1:n12:piece lengthi1e6:pieces0:ee";
    assert_eq!(schema_error(bytes), SchemaError::AmbiguousFileMode);
}

#[test]
fn neither_length_nor_files_is_ambiguous() {
    let bytes = b"d8:announce1:a4:infod4:name1:n12:piece lengthi1e6:pieces0:ee";
    assert_eq!(schema_error(bytes), SchemaError::AmbiguousFileMode);
    let bytes = b"d8:announce1:a4:infod5:filesle4:name1:n12:piece lengthi1e6:pieces0:ee";
    assert_eq!(schema_error(bytes), SchemaError::AmbiguousFileMode);
}

#[test]
fn missing_fields_are_named() {
    assert_eq!(schema_error(b"d4:infodee"), SchemaError::MissingField(Field::Announce));
    assert_eq!(schema_error(b"d8:announce1:ae"), SchemaError::MissingField(Field::Info));
    assert_eq!(schema_error(b"d8:announce1:a4:infodee"), SchemaError::MissingField(Field::Name));
    assert_eq!(
        schema_error(b"d8:announce1:a4:infod4:name1:nee"),
        SchemaError::MissingField(Field::PieceLength)
    );
    assert_eq!(
        schema_error(b"d8:announce1:a4:infod4:name1:n12:piece lengthi1eee"),
        SchemaError::MissingField(Field::Pieces)
    );
    assert_eq!(
        schema_error(b"d8:announce1:a4:infod5:filesld6:lengthi1eee4:name1:n12:piece lengthi1e6:pieces0:ee"),
        SchemaError::MissingField(Field::Path)
    );
    assert_eq!(
        schema_error(b"d8:announce1:a4:infod5:filesld4:pathleee4:name1:n12:piece lengthi1e6:pieces0:ee"),
        SchemaError::MissingField(Field::Length)
    );
}

#[test]
fn type_mismatches_name_both_kinds() {
    assert_eq!(
        schema_error(b"le"),
        SchemaError::TypeMismatch { expected: Kind::Dict, found: Kind::List }
    );
    assert_eq!(
        schema_error(b"d8:announcei1e4:infodee"),
        SchemaError::TypeMismatch { expected: Kind::Bytes, found: Kind::Integer }
    );
    assert_eq!(
        schema_error(b"d8:announce1:a4:info1:xe"),
        SchemaError::TypeMismatch { expected: Kind::Dict, found: Kind::Bytes }
    );
    assert_eq!(
        schema_error(b"d8:announce1:a4:infod5:filesi1e4:name1:n12:piece lengthi1e6:pieces0:ee"),
        SchemaError::TypeMismatch { expected: Kind::List, found: Kind::Integer }
    );
    assert_eq!(
        schema_error(b"d8:announce1:a4:infod6:lengthi1e4:name1:n12:piece lengthdee6:pieces0:ee"),
        SchemaError::TypeMismatch { expected: Kind::Integer, found: Kind::Dict }
    );
}

#[test]
fn invalid_text_is_refused() {
    assert_eq!(schema_error(b"d8:announce1:\xff4:infodee"), SchemaError::InvalidUtf8(Field::Announce));
    assert_eq!(
        schema_error(b"d8:announce1:a4:infod5:filesld6:lengthi1e4:pathl1:\xc3eee4:name1:n12:piece lengthi1e6:pieces0:ee"),
        SchemaError::InvalidUtf8(Field::Path)
    );
}

#[test]
fn text_beyond_ascii_is_read() {
    let torrent = Torrent::parse_bytes(
        "d8:announce1:a4:infod6:lengthi1e4:name5:été12:piece lengthi1e6:pieces0:ee".as_bytes(),
    )
    .unwrap();
    assert_eq!(torrent.info.name, "été");
}

#[test]
fn pieces_must_be_whole() {
    let bytes = b"d8:announce1:a4:infod6:lengthi1e4:name1:n12:piece lengthi1e6:pieces3:abcee";
    assert_eq!(schema_error(bytes), SchemaError::InvalidPieceLength);
}

#[test]
fn numbers_out_of_range_are_refused() {
    assert_eq!(
        schema_error(b"d8:announce1:a4:infod6:lengthi1e4:name1:n12:piece lengthi0e6:pieces0:ee"),
        SchemaError::OutOfRange(Field::PieceLength)
    );
    assert_eq!(
        schema_error(b"d8:announce1:a4:infod6:lengthi-1e4:name1:n12:piece lengthi1e6:pieces0:ee"),
        SchemaError::OutOfRange(Field::Length)
    );
    assert_eq!(
        schema_error(b"d8:announce1:a4:infod6:lengthi1e4:name1:n12:piece lengthi1e6:pieces0:7:privatei2eee"),
        SchemaError::OutOfRange(Field::Private)
    );
}

#[test]
fn malformed_bencode_is_a_parse_error() {
    assert!(matches!(Torrent::parse_bytes(b""), Err(TorrentError::ParseTorrent(_))));
    assert!(matches!(Torrent::parse_bytes(b"d8:announce"), Err(TorrentError::ParseTorrent(_))));
    assert!(matches!(Torrent::parse_bytes(b"i01e"), Err(TorrentError::ParseTorrent(_))));
}

#[test]
fn files_module_reads_and_writes_the_list() {
    let value = decode(b"ld6:lengthi10e4:pathl1:a5:b.txteed6:lengthi32e4:pathl5:c.bineee").unwrap();
    let files = brs::torrent::files::deserialize(&value).unwrap();
    assert_eq!(files.len(), 2);
    assert_eq!(brs::torrent::files::serialize(&files), value);
}

#[test]
fn pieces_module_parts_and_joins() {
    let bytes: Vec<u8> = (0u8..40).collect();
    let pieces = brs::torrent::pieces::deserialize(&bytes).unwrap();
    assert_eq!(pieces.len(), 2);
    assert_eq!(pieces[1][0], 20);
    assert_eq!(brs::torrent::pieces::serialize(&pieces), bytes);
    assert_eq!(
        brs::torrent::pieces::deserialize(&bytes[..39]),
        Err(SchemaError::InvalidPieceLength)
    );
}

#[test]
fn private_flag_is_zero_or_one() {
    assert_eq!(from_bool_to_int(&BencodeValue::Integer(0)), Ok(false));
    assert_eq!(from_bool_to_int(&BencodeValue::Integer(1)), Ok(true));
    assert_eq!(
        from_bool_to_int(&BencodeValue::Integer(7)),
        Err(SchemaError::OutOfRange(Field::Private))
    );
}

#[test]
fn info_dictionary_is_read_from_its_bytes() {
    let info = TorrentInfo::parse_bytes(MULTI_INFO).unwrap();
    assert_eq!(info, Torrent::parse_bytes(MULTI).unwrap().info);
    assert_eq!(TorrentInfo::parse_bytes(&info.encode_canonical()).unwrap(), info);
    assert!(matches!(TorrentInfo::parse_bytes(b"d"), Err(TorrentError::ParseTorrent(_))));
    assert!(matches!(
        TorrentInfo::parse_bytes(b"de"),
        Err(TorrentError::Schema(SchemaError::MissingField(Field::Name)))
    ));
}

#[test]
fn value_tree_of_a_torrent_is_canonical() {
    let torrent = Torrent::parse_bytes(SINGLE).unwrap();
    assert_eq!(torrent.to_value(), decode(SINGLE).unwrap());
    assert_eq!(torrent.info.to_value(), decode(SINGLE_INFO).unwrap());
}

#[test]
fn empty_optional_fields_are_left_out() {
    let source = b"d8:announce1:a4:infod6:lengthi0e4:name1:n12:piece lengthi1e6:pieces0:ee";
    let torrent = Torrent::parse_bytes(source).unwrap();
    assert_eq!(torrent.additional_fields.created_by, None);
    assert_eq!(torrent.additional_fields.creation_date, None);
    assert_eq!(torrent.to_bytes(), source.to_vec());
}

#[test]
fn path_is_shown_with_slashes() {
    let file = TorrentFile { path: vec!["a".to_string(), "b".to_string(), "c.txt".to_string()], length: 1 };
    assert_eq!(file.display_path(), "a/b/c.txt");
    assert_eq!(TorrentFile { path: vec![], length: 0 }.display_path(), "");
    assert_eq!(TorrentFile { path: vec!["x".to_string()], length: 0 }.display_path(), "x");
}
