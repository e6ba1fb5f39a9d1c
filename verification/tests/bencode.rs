use bittorrent_rustico::bencode::{
    decode, encode, BencodeDecodedValue, BencodeDecoderError, BencodeDictionary, ValueKind,
};

fn dictionary(pairs: Vec<(&[u8], BencodeDecodedValue)>) -> BencodeDictionary {
    BencodeDictionary::from_entries(pairs.into_iter().map(|(k, v)| (k.to_vec(), v)).collect())
}

#[test]
fn bencode_decoder_decodes_positive_number() {
    assert_eq!(decode(b"i123e").unwrap(), BencodeDecodedValue::Integer(123));
}

#[test]
fn encode_positive_number() {
    assert_eq!(
        encode(&BencodeDecodedValue::Integer(123)).unwrap(),
        b"i123e".to_vec()
    );
}

#[test]
fn decoder_decodes_positive_number() {
    assert_eq!(decode(b"i123e").unwrap(), BencodeDecodedValue::Integer(123));
}

#[test]
fn decodes_negative_number() {
    assert_eq!(
        decode(b"i-123e").unwrap(),
        BencodeDecodedValue::Integer(-123)
    );
}

#[test]
fn decode_number_fails_unexpected_end_of_stream() {
    assert!(decode(b"i").is_err());
    assert!(decode(b"i123").is_err());
}

#[test]
fn decode_number_fails_invalid_digit() {
    assert!(decode(b"i123f").is_err());
}

#[test]
fn decode_number_fails_invalid_zeros_on_left() {
    assert!(decode(b"i0123e").is_err());
}

#[test]
fn decodes_number_fails_wrong_negative_format() {
    assert!(decode(b"i--123e").is_err());
    assert!(decode(b"i-12-3e").is_err());
}

#[test]
fn decodes_empty_string() {
    assert_eq!(
        decode(b"0:").unwrap(),
        BencodeDecodedValue::String(b"".to_vec())
    );
}

#[test]
fn decodes_string_with_one_letter() {
    assert_eq!(
        decode(b"1:a").unwrap(),
        BencodeDecodedValue::String(b"a".to_vec())
    );
}

#[test]
fn decode_string_with_multiple_letters() {
    assert_eq!(
        decode(b"15:aabaaaaaaaaaaER").unwrap(),
        BencodeDecodedValue::String(b"aabaaaaaaaaaaER".to_vec())
    )
}

#[test]
fn decode_string_reads_only_up_to_length() {
    assert_eq!(
        decode(b"5:aabaaaaaaaaaaER").unwrap(),
        BencodeDecodedValue::String(b"aabaa".to_vec())
    )
}

#[test]
fn decode_string_fails_unexpected_end_of_stream() {
    assert!(decode(b"8:afaw").is_err());
}

#[test]
fn decodes_empty_list() {
    assert_eq!(decode(b"le").unwrap(), BencodeDecodedValue::List(vec![]));
}

#[test]
fn decodes_list_with_one_element() {
    assert_eq!(
        decode(b"li123ee").unwrap(),
        BencodeDecodedValue::List(vec![BencodeDecodedValue::Integer(123)])
    );
}

#[test]
fn decodes_list_with_multiple_element() {
    assert_eq!(
        decode(b"li123ei3ei523ee").unwrap(),
        BencodeDecodedValue::List(vec![
            BencodeDecodedValue::Integer(123),
            BencodeDecodedValue::Integer(3),
            BencodeDecodedValue::Integer(523)
        ])
    );
}

#[test]
fn decode_list_fails_unexpected_end_of_stream() {
    assert!(decode(b"li123ei3ei523").is_err())
}

#[test]
fn decode_empty_dictionary() {
    assert_eq!(
        decode(b"de").unwrap(),
        BencodeDecodedValue::Dictionary(BencodeDictionary::new())
    );
}

#[test]
fn decode_dictionary_with_one_element() {
    assert_eq!(
        decode(b"d1:ai123ee").unwrap(),
        BencodeDecodedValue::Dictionary(dictionary(vec![(
            b"a",
            BencodeDecodedValue::Integer(123)
        )]))
    );
}

#[test]
fn decode_dictionary_with_multiple_element() {
    assert_eq!(
        decode(b"d4:holai123e4:chaui321ee").unwrap(),
        BencodeDecodedValue::Dictionary(dictionary(vec![
            (b"hola", BencodeDecodedValue::Integer(123)),
            (b"chau", BencodeDecodedValue::Integer(321)),
        ]))
    );
}

#[test]
fn decode_list_with_multiple_e() {
    assert_eq!(
        decode(b"l4:eeeee").unwrap(),
        BencodeDecodedValue::List(vec![BencodeDecodedValue::String(b"eeee".to_vec())])
    );
}

#[test]
fn decode_dictionary_with_multiple_e() {
    assert_eq!(
        decode(b"d4:eeee4:eeeee").unwrap(),
        BencodeDecodedValue::Dictionary(dictionary(vec![(
            b"eeee",
            BencodeDecodedValue::String(b"eeee".to_vec())
        )]))
    );
}

#[test]
fn decode_list_of_multiple_depths_and_types() {
    assert_eq!(
        decode(b"li100e4:holali20eee").unwrap(),
        BencodeDecodedValue::List(vec![
            BencodeDecodedValue::Integer(100),
            BencodeDecodedValue::String(b"hola".to_vec()),
            BencodeDecodedValue::List(vec![BencodeDecodedValue::Integer(20)])
        ])
    );
}

#[test]
fn decode_dictionary_of_multiple_depths_and_types() {
    assert_eq!(
        decode(b"d1:ai123e4:hola4:chau4:testd1:ai123e4:hola4:chauee").unwrap(),
        BencodeDecodedValue::Dictionary(dictionary(vec![
            (b"a", BencodeDecodedValue::Integer(123)),
            (b"hola", BencodeDecodedValue::String(b"chau".to_vec())),
            (
                b"test",
                BencodeDecodedValue::Dictionary(dictionary(vec![
                    (b"a", BencodeDecodedValue::Integer(123)),
                    (b"hola", BencodeDecodedValue::String(b"chau".to_vec())),
                ]))
            )
        ]))
    );
}

// Errors, positions and edge cases of the decoder.

#[test]
fn decode_reports_each_error() {
    assert_eq!(decode(b""), Err(BencodeDecoderError::UnexpectedEndOfStream));
    assert_eq!(decode(b"x"), Err(BencodeDecoderError::UnknownToken(b'x', 0)));
    assert_eq!(decode(b"i0123e"), Err(BencodeDecoderError::UnexpectedZero(2)));
    assert_eq!(decode(b"i12-3e"), Err(BencodeDecoderError::InvalidIntegerByte(b'-', 3)));
    assert_eq!(
        decode(b"i9223372036854775808e"),
        Err(BencodeDecoderError::IntegerOverflow(19))
    );
    assert_eq!(decode(b"3x:abc"), Err(BencodeDecoderError::InvalidStringLengthDigit(b'x', 1)));
    assert_eq!(
        decode(b"di1ei2ee"),
        Err(BencodeDecoderError::InvalidDictionaryKey(ValueKind::Integer))
    );
    assert_eq!(decode(b"99999999999999999999999:ab"), Err(BencodeDecoderError::EndOfStreamInString));
    assert_eq!(decode(b"3:ab"), Err(BencodeDecoderError::EndOfStreamInString));
    assert_eq!(decode(b"12"), Err(BencodeDecoderError::EndOfStreamInStringLength));
    assert_eq!(decode(b"i12"), Err(BencodeDecoderError::EndOfStreamInInteger));
    assert_eq!(decode(b"l"), Err(BencodeDecoderError::UnexpectedEndOfStream));
}

#[test]
fn decode_integer_edge_cases() {
    assert_eq!(decode(b"i0e").unwrap(), BencodeDecodedValue::Integer(0));
    assert_eq!(decode(b"ie").unwrap(), BencodeDecodedValue::Integer(0));
    assert_eq!(decode(b"i-0e").unwrap(), BencodeDecodedValue::Integer(0));
    assert_eq!(decode(b"i-05e").unwrap(), BencodeDecodedValue::Integer(-5));
    assert_eq!(
        decode(b"i9223372036854775807e").unwrap(),
        BencodeDecodedValue::Integer(i64::MAX)
    );
    assert_eq!(
        decode(b"i-9223372036854775807e").unwrap(),
        BencodeDecodedValue::Integer(-i64::MAX)
    );
}

#[test]
fn decode_end_marker_and_repeated_keys() {
    assert_eq!(decode(b"e").unwrap(), BencodeDecodedValue::End);
    // A repeated key keeps the value that came last, as a map insert does.
    assert_eq!(
        decode(b"d1:ai1e1:ai2ee").unwrap(),
        BencodeDecodedValue::Dictionary(dictionary(vec![(b"a", BencodeDecodedValue::Integer(2))]))
    );
}

#[test]
fn dictionary_keeps_keys_in_order() {
    let d = dictionary(vec![
        (b"zeta", BencodeDecodedValue::Integer(1)),
        (b"alpha", BencodeDecodedValue::Integer(2)),
        (b"al", BencodeDecodedValue::Integer(3)),
    ]);
    let keys: Vec<&[u8]> = d.entries().iter().map(|(k, _)| k.as_slice()).collect();
    assert_eq!(keys, vec![&b"al"[..], &b"alpha"[..], &b"zeta"[..]]);
    assert_eq!(d.get(b"alpha"), Some(&BencodeDecodedValue::Integer(2)));
    assert_eq!(d.get(b"beta"), None);
    assert_eq!(d.len(), 3);
}

#[test]
fn encode_every_kind() {
    let value = BencodeDecodedValue::Dictionary(dictionary(vec![
        (b"b", BencodeDecodedValue::List(vec![
            BencodeDecodedValue::Integer(-42),
            BencodeDecodedValue::String(b"spam".to_vec()),
        ])),
        (b"a", BencodeDecodedValue::Integer(0)),
    ]));
    assert_eq!(encode(&value).unwrap(), b"d1:ai0e1:bli-42e4:spamee".to_vec());
    // the end marker that a decoded list can hold is written as its token
    assert_eq!(
        encode(&BencodeDecodedValue::List(vec![BencodeDecodedValue::End])).unwrap(),
        b"lee".to_vec()
    );
}

#[test]
fn decode_gives_back_what_encode_wrote() {
    let value = BencodeDecodedValue::Dictionary(dictionary(vec![
        (b"announce", BencodeDecodedValue::String(b"http://tracker".to_vec())),
        (b"list", BencodeDecodedValue::List(vec![
            BencodeDecodedValue::Integer(i64::MAX),
            BencodeDecodedValue::Integer(-7),
            BencodeDecodedValue::String(vec![0u8; 12]),
        ])),
    ]));
    let bytes = encode(&value).unwrap();
    assert_eq!(decode(&bytes).unwrap(), value);
}

#[test]
fn get_as_reports_the_kind_found() {
    let value = BencodeDecodedValue::Integer(7);
    assert_eq!(value.get_as_integer(), Ok(&7));
    assert_eq!(
        value.get_as_string(),
        Err(BencodeDecoderError::WrongExpectedValue(ValueKind::String, ValueKind::Integer))
    );
    assert_eq!(
        value.get_as_list(),
        Err(BencodeDecoderError::WrongExpectedValue(ValueKind::List, ValueKind::Integer))
    );
    assert!(value.get_as_dictionary().is_err());
    let s = BencodeDecodedValue::String(b"hola".to_vec());
    assert_eq!(s.get_as_string().unwrap(), &b"hola".to_vec());
}

#[test]
fn decoder_errors_describe_themselves() {
    assert_eq!(
        BencodeDecoderError::UnexpectedEndOfStream.to_string(),
        "Bencode Decoder Error: Unexpected end of stream"
    );
    assert_eq!(
        decode(b"i12").unwrap_err().to_string(),
        "Bencode Decoder Error: Unexpected end of stream while reading integer"
    );
    assert_eq!(
        decode(b"12").unwrap_err().to_string(),
        "Bencode Decoder Error: Unexpected end of stream while reading string length"
    );
    assert_eq!(
        decode(b"3:ab").unwrap_err().to_string(),
        "Bencode Decoder Error: Unexpected end of stream while pushing bytes to string"
    );
    assert_eq!(
        decode(b"x").unwrap_err().to_string(),
        "Bencode Decoder Error: Unknown token x at position 0"
    );
    assert_eq!(
        decode(b"i0123e").unwrap_err().to_string(),
        "Bencode Decoder Error: Unexpected zero in integer at position 2"
    );
    assert_eq!(
        decode(b"i12-3e").unwrap_err().to_string(),
        "Bencode Decoder Error: Invalid integer byte 45 at position 3"
    );
    assert_eq!(
        decode(b"3x:abc").unwrap_err().to_string(),
        "Bencode Decoder Error: Invalid string length digit x at position 1"
    );
    assert_eq!(
        decode(b"di1ei2ee").unwrap_err().to_string(),
        "Bencode Decoder Error: Invalid dictionary key Integer"
    );
    assert_eq!(
        BencodeDecodedValue::Integer(1).get_as_string().unwrap_err().to_string(),
        "Bencode Decoder Error: Expected a string, but got Integer"
    );
}

#[test]
fn decode_string_takes_exactly_its_length() {
    // the value ends right after the declared bytes, whatever follows
    assert_eq!(decode(b"3:abcdef").unwrap(), BencodeDecodedValue::String(b"abc".to_vec()));
    assert_eq!(decode(b"10:0123456789i1e").unwrap(), BencodeDecodedValue::String(b"0123456789".to_vec()));
    assert_eq!(
        decode(b"l2:ab2:cde").unwrap(),
        BencodeDecodedValue::List(vec![
            BencodeDecodedValue::String(b"ab".to_vec()),
            BencodeDecodedValue::String(b"cd".to_vec()),
        ])
    );
}
