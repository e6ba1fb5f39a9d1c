use bittorrent_rustico::bencode::{BencodeDecoderError, ValueKind};
use bittorrent_rustico::metainfo::{parse, MetainfoParserError};
use bittorrent_rustico::peer::sha1_of;

#[test]
fn empty_byte_array() {
    let empty_bytes: Vec<u8> = Vec::new();
    let result = parse(&empty_bytes);
    assert!(matches!(
        result.unwrap_err(),
        MetainfoParserError::DecodeError(_)
    ))
}

#[test]
fn invalid_byte_array() {
    let invalid_bytes: Vec<u8> = b"CantMakeAMetainfoOutOfThis".to_vec();
    let result = parse(&invalid_bytes);
    assert!(matches!(
        result.unwrap_err(),
        MetainfoParserError::DecodeError(_)
    ))
}

#[test]
fn necessary_key_not_dictionary() {
    let invalid_bytes: Vec<u8> = b"d3:cow3:moo4:spam4:eggse".to_vec();
    let result = parse(&invalid_bytes);
    assert!(matches!(
        result.unwrap_err(),
        MetainfoParserError::MetainfoKeyNotFound(_)
    ))
}

#[test]
fn unexpected_value_type() {
    let invalid_bytes: Vec<u8> = b"d3:cow3:moo4:info4:eggse".to_vec();
    let result = parse(&invalid_bytes);
    assert!(matches!(
        result.unwrap_err(),
        MetainfoParserError::UnexpectedBencodeDecodedValue(
            BencodeDecoderError::WrongExpectedValue(_, _)
        )
    ))
}

fn torrent(info: &[u8]) -> Vec<u8> {
    let mut bytes = b"d8:announce35:udp://tracker.openbittorrent.com:804:info".to_vec();
    bytes.extend_from_slice(info);
    bytes.push(b'e');
    bytes
}

#[test]
fn parses_single_file_torrent() {
    let info = b"d6:lengthi20e4:name10:sample.txt12:piece lengthi65536e6:pieces20:\x5c\xc5\xe6\x52\xbe\x0d\xe6\xf2\x78\x05\xb3\x04\x64\xff\x9b\x00\xf4\x89\xf0\xc9e";
    let metainfo = parse(&torrent(info)).unwrap();
    assert_eq!(metainfo.info.piece_length, 65536);
    assert_eq!(
        metainfo.info.pieces,
        vec![vec![
            92, 197, 230, 82, 190, 13, 230, 242, 120, 5, 179, 4, 100, 255, 155, 0, 244, 137, 240,
            201
        ]]
    );
    assert_eq!(metainfo.info.name, "sample.txt");
    assert_eq!(metainfo.info.length, 20);
    assert!(metainfo.info.files.is_none());
    assert_eq!(metainfo.announce, "udp://tracker.openbittorrent.com:80");
    // The info hash is the SHA-1 hash of the info dictionary exactly as it was written.
    assert_eq!(metainfo.info_hash, sha1_of(info));
    assert_eq!(metainfo.info_hash.len(), 20);
}

#[test]
fn casts_numbers_and_keeps_a_short_last_hash() {
    let short_pieces = b"d6:lengthi20e4:name1:x12:piece lengthi8e6:pieces3:abce";
    let metainfo = parse(&torrent(short_pieces)).unwrap();
    assert_eq!(metainfo.info.pieces, vec![b"abc".to_vec()]);
    let long_pieces =
        b"d6:lengthi20e4:name1:x12:piece lengthi8e6:pieces22:aaaaaaaaaaaaaaaaaaaabbe";
    let metainfo = parse(&torrent(long_pieces)).unwrap();
    assert_eq!(metainfo.info.pieces, vec![vec![b'a'; 20], b"bb".to_vec()]);
    let negative_length = b"d6:lengthi-1e4:name1:x12:piece lengthi-1e6:pieces0:e";
    let metainfo = parse(&torrent(negative_length)).unwrap();
    assert_eq!(metainfo.info.length, u64::MAX);
    assert_eq!(metainfo.info.piece_length, u32::MAX);
    assert!(metainfo.info.pieces.is_empty());
    let wide_piece_length = b"d6:lengthi1e4:name1:x12:piece lengthi4294967304e6:pieces0:e";
    assert_eq!(parse(&torrent(wide_piece_length)).unwrap().info.piece_length, 8);
}

#[test]
fn reports_invalid_values() {
    let bad_name = b"d6:lengthi1e4:name1:\xff12:piece lengthi8e6:pieces0:e";
    assert!(matches!(
        parse(&torrent(bad_name)).unwrap_err(),
        MetainfoParserError::UTF8Error
    ));
    let missing_length = b"d4:name1:x12:piece lengthi8e6:pieces0:e";
    match parse(&torrent(missing_length)).unwrap_err() {
        MetainfoParserError::MetainfoKeyNotFound(key) => assert_eq!(key, "length"),
        other => panic!("unexpected error {:?}", other),
    }
    let not_a_dictionary = b"li1ee";
    assert!(matches!(
        parse(not_a_dictionary).unwrap_err(),
        MetainfoParserError::UnexpectedBencodeDecodedValue(
            BencodeDecoderError::WrongExpectedValue(ValueKind::Dictionary, ValueKind::List)
        )
    ));
}

#[test]
fn sha1_of_known_value() {
    // SHA-1("abc")
    assert_eq!(
        sha1_of(b"abc"),
        vec![
            0xa9, 0x99, 0x3e, 0x36, 0x47, 0x06, 0x81, 0x6a, 0xba, 0x3e, 0x25, 0x71, 0x78, 0x50,
            0xc2, 0x6c, 0x9c, 0xd0, 0xd8, 0x9d
        ]
    );
}

fn sample(announce: &str, files: Option<Vec<bittorrent_rustico::metainfo::File>>) -> bittorrent_rustico::metainfo::Metainfo {
    bittorrent_rustico::metainfo::Metainfo {
        info: bittorrent_rustico::metainfo::Info {
            piece_length: 8,
            pieces: vec![vec![1; 20], vec![2; 20]],
            name: "file".to_string(),
            length: 16,
            files,
        },
        info_hash: vec![3; 20],
        announce: announce.to_string(),
    }
}

#[test]
fn metainfo_equality_ignores_files() {
    let files = vec![bittorrent_rustico::metainfo::File {
        path: "a".to_string(),
        length: 16,
    }];
    assert!(sample("http://t", None) == sample("http://t", Some(files)));
    assert!(sample("http://t", None) != sample("http://u", None));
    let mut other = sample("http://t", None);
    other.info.pieces[1][0] = 9;
    assert!(sample("http://t", None) != other);
    let copy = other.copy();
    assert!(copy == other);
    assert_eq!(copy.info.pieces, other.info.pieces);
}

#[test]
fn metainfo_errors_describe_themselves() {
    assert_eq!(
        parse(b"").unwrap_err().to_string(),
        "Bencode error: Bencode Decoder Error: Unexpected end of stream\n"
    );
    assert_eq!(
        parse(b"d3:cow3:mooe").unwrap_err().to_string(),
        "Necessary key 'info' was not in Bencode-Decoded Dictionary\n"
    );
    assert_eq!(
        MetainfoParserError::UTF8Error.to_string(),
        "Found that byte array was not UTF-8 encoded when parsing to String \n"
    );
    assert_eq!(
        MetainfoParserError::ValidationError.to_string(),
        "Validation error: A Metainfo or Info value was invalid\n"
    );
}

#[test]
fn info_holding_an_end_marker_is_parsed() {
    let info = b"d6:lengthi1e4:name1:x12:piece lengthi8e6:pieces0:1:zee";
    let metainfo = parse(&torrent(info)).unwrap();
    assert_eq!(metainfo.info.name, "x");
    assert_eq!(metainfo.info.piece_length, 8);
    // the info dictionary is written back exactly as it came, so its hash is that of its bytes
    assert_eq!(metainfo.info_hash, sha1_of(info));
}
