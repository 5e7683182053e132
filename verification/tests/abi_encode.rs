use ethtool::abi::{
    encode_abi_packed, encode_field, encode_packed_address, encode_packed_bool,
    encode_packed_bytes, encode_packed_bytesn, encode_packed_intn, encode_packed_string,
    encode_packed_uintn, execute_encode_packed_cmd, ABIError, ABIField,
};

fn packed(spec: &str) -> Vec<u8> {
    encode_abi_packed(spec).unwrap()
}

#[test]
fn boolean_is_one_byte() {
    assert_eq!(packed("bool:true"), vec![0x01]);
    assert_eq!(packed("bool:false"), vec![0x00]);
    match encode_abi_packed("bool:True") {
        Err(ABIError::InvalidValue(m)) => assert_eq!(m, "invalid boolean value"),
        other => panic!("unexpected: {:?}", other),
    }
    assert!(matches!(encode_abi_packed("bool:"), Err(ABIError::InvalidValue(_))));
    assert!(matches!(encode_abi_packed("bool:1"), Err(ABIError::InvalidValue(_))));
}

#[test]
fn three_fields_end_to_end() {
    let out = packed("uint8:5,bool:true,address:0x00000000000000000000000000000000000000ff");
    assert_eq!(out.len(), 22);
    assert_eq!(hex::encode(&out), "050100000000000000000000000000000000000000ff");
    assert_eq!(ethtool::util::encode_hex(&out), "0x050100000000000000000000000000000000000000ff");
}

#[test]
fn three_fields_with_a_short_address_are_refused() {
    match encode_abi_packed("uint8:5,bool:true,address:0x000000000000000000000000000000000000ff") {
        Err(ABIError::InvalidValue(m)) => assert_eq!(m, "invalid address"),
        other => panic!("unexpected: {:?}", other),
    }
}

#[test]
fn dynamic_bytes_end_to_end() {
    assert_eq!(packed("bytes:0xdead"), vec![0xde, 0xad]);
    assert_eq!(packed("bytes:dead"), vec![0xde, 0xad]);
    assert_eq!(packed("bytes:"), Vec::<u8>::new());
    assert_eq!(packed("bytes0:0x01"), vec![0x01]);
}

#[test]
fn missing_colon_is_malformed() {
    assert!(matches!(encode_abi_packed("uint8-5"), Err(ABIError::InvalidFieldDefinition)));
    assert!(matches!(encode_abi_packed(""), Err(ABIError::InvalidFieldDefinition)));
    assert!(matches!(encode_abi_packed("uint8"), Err(ABIError::InvalidFieldDefinition)));
}

#[test]
fn second_colon_is_malformed() {
    assert!(matches!(encode_abi_packed("string:a:b"), Err(ABIError::InvalidFieldDefinition)));
    assert!(matches!(encode_abi_packed("uint8:5:"), Err(ABIError::InvalidFieldDefinition)));
    assert!(matches!(encode_abi_packed("::"), Err(ABIError::InvalidFieldDefinition)));
}

#[test]
fn empty_fields_are_malformed() {
    assert!(matches!(encode_abi_packed("uint8:5,"), Err(ABIError::InvalidFieldDefinition)));
    assert!(matches!(encode_abi_packed(",uint8:5"), Err(ABIError::InvalidFieldDefinition)));
    assert!(matches!(encode_abi_packed("uint8:5,,bool:true"), Err(ABIError::InvalidFieldDefinition)));
}

#[test]
fn fields_are_encoded_in_order() {
    assert_eq!(packed("uint8:1,uint8:2,uint8:3"), vec![1, 2, 3]);
    assert_eq!(packed("string:ab,bool:false,string:c"), vec![b'a', b'b', 0, b'c']);
}

#[test]
fn the_first_failure_is_the_one_reported() {
    assert!(matches!(
        encode_abi_packed("uint8:1,bytes33:00,bool:maybe"),
        Err(ABIError::InvalidSize(33))
    ));
    assert!(matches!(
        encode_abi_packed("bool:maybe,bytes33:00"),
        Err(ABIError::InvalidValue(_))
    ));
    assert!(matches!(
        encode_abi_packed("uint8:1,nothing,bytes33:00"),
        Err(ABIError::InvalidFieldDefinition)
    ));
}

#[test]
fn unknown_type_in_a_field() {
    match encode_abi_packed("float:1") {
        Err(ABIError::InvalidFieldType(name)) => assert_eq!(name, "float"),
        other => panic!("unexpected: {:?}", other),
    }
    match encode_abi_packed(":1") {
        Err(ABIError::InvalidFieldType(name)) => assert_eq!(name, ""),
        other => panic!("unexpected: {:?}", other),
    }
}

#[test]
fn string_is_its_bytes() {
    assert_eq!(packed("string:hello"), b"hello".to_vec());
    assert_eq!(packed("string:"), Vec::<u8>::new());
    assert_eq!(packed("string:grüß"), "grüß".as_bytes().to_vec());
    assert_eq!(packed("string:€,string:日本"), "€日本".as_bytes().to_vec());
}

#[test]
fn address_is_twenty_bytes() {
    let mut expected = vec![0u8; 20];
    expected[19] = 0xff;
    assert_eq!(packed("address:00000000000000000000000000000000000000ff"), expected);
    assert_eq!(packed("address:0x00000000000000000000000000000000000000FF"), expected);
    match encode_abi_packed("address:0x00ff") {
        Err(ABIError::InvalidValue(m)) => assert_eq!(m, "invalid address"),
        other => panic!("unexpected: {:?}", other),
    }
    assert!(matches!(
        encode_abi_packed("address:0x000000000000000000000000000000000000000000ff"),
        Err(ABIError::InvalidValue(_))
    ));
    assert!(matches!(encode_abi_packed("address:"), Err(ABIError::InvalidValue(_))));
}

#[test]
fn text_that_is_no_hex_is_an_io_error() {
    match encode_abi_packed("address:0xzz") {
        Err(ABIError::IOError(m)) => assert_eq!(m, "Invalid character 'z' at position 0"),
        other => panic!("unexpected: {:?}", other),
    }
    match encode_abi_packed("bytes:abc") {
        Err(ABIError::IOError(m)) => assert_eq!(m, "Odd number of digits"),
        other => panic!("unexpected: {:?}", other),
    }
    assert!(matches!(encode_abi_packed("bytes4:0x0g000000"), Err(ABIError::IOError(_))));
}

#[test]
fn fixed_bytes_must_match_the_size() {
    assert_eq!(packed("bytes4:0xdeadbeef"), vec![0xde, 0xad, 0xbe, 0xef]);
    assert_eq!(packed("bytes1:ff"), vec![0xff]);
    assert!(matches!(encode_abi_packed("bytes4:0xdead"), Err(ABIError::ByteSizeMismatch)));
    assert!(matches!(encode_abi_packed("bytes1:0xdead"), Err(ABIError::ByteSizeMismatch)));
    assert!(matches!(encode_abi_packed("bytes2:"), Err(ABIError::ByteSizeMismatch)));
    let full = "11".repeat(32);
    assert_eq!(packed(&format!("bytes32:{}", full)), vec![0x11; 32]);
}

#[test]
fn unsigned_integers_are_padded_on_the_left() {
    assert_eq!(packed("uint8:0"), vec![0]);
    assert_eq!(packed("uint8:255"), vec![255]);
    assert_eq!(packed("uint16:5"), vec![0, 5]);
    assert_eq!(packed("uint16:1125"), vec![4, 101]);
    assert_eq!(packed("uint32:65536"), vec![0, 1, 0, 0]);
    let mut expected = vec![0u8; 32];
    expected[31] = 1;
    assert_eq!(packed("uint:1"), expected);
    assert_eq!(packed("uint256:1"), expected);
}

#[test]
fn unsigned_integers_up_to_the_largest() {
    assert_eq!(
        packed(
            "uint256:115792089237316195423570985008687907853269984665640564039457584007913129639935"
        ),
        vec![0xff; 32]
    );
    assert_eq!(packed("uint64:18446744073709551615"), vec![0xff; 8]);
    assert_eq!(packed("uint128:340282366920938463463374607431768211455"), vec![0xff; 16]);
}

#[test]
fn unsigned_integers_that_do_not_fit_are_refused() {
    match encode_abi_packed("uint8:256") {
        Err(ABIError::InvalidValue(m)) => assert_eq!(m, "value does not fit the type"),
        other => panic!("unexpected: {:?}", other),
    }
    assert!(matches!(encode_abi_packed("uint16:65536"), Err(ABIError::InvalidValue(_))));
    assert!(matches!(
        encode_abi_packed(
            "uint256:115792089237316195423570985008687907853269984665640564039457584007913129639936"
        ),
        Err(ABIError::InvalidValue(_))
    ));
}

#[test]
fn unsigned_integers_must_be_decimal() {
    match encode_abi_packed("uint8:") {
        Err(ABIError::InvalidValue(m)) => assert_eq!(m, "cannot parse integer from empty string"),
        other => panic!("unexpected: {:?}", other),
    }
    match encode_abi_packed("uint8:-1") {
        Err(ABIError::InvalidValue(m)) => assert_eq!(m, "invalid digit found in string"),
        other => panic!("unexpected: {:?}", other),
    }
    assert!(matches!(encode_abi_packed("uint8:0x05"), Err(ABIError::InvalidValue(_))));
    assert!(matches!(encode_abi_packed("uint8:five"), Err(ABIError::InvalidValue(_))));
    assert!(matches!(encode_abi_packed("uint8: 5"), Err(ABIError::InvalidValue(_))));
    assert!(matches!(encode_abi_packed("uint8:_5"), Err(ABIError::InvalidValue(_))));
    assert!(matches!(encode_abi_packed("uint8:++5"), Err(ABIError::InvalidValue(_))));
    assert!(matches!(encode_abi_packed("uint8:+"), Err(ABIError::InvalidValue(_))));
    assert!(matches!(encode_abi_packed("uint8:+_5"), Err(ABIError::InvalidValue(_))));
}

#[test]
fn integers_may_carry_a_plus_sign_and_underscores() {
    assert_eq!(packed("uint8:+5"), vec![5]);
    assert_eq!(packed("uint16:1_000"), vec![0x03, 0xe8]);
    assert_eq!(packed("uint16:1__0_"), vec![0, 10]);
    assert_eq!(packed("uint8:007"), vec![7]);
    assert_eq!(packed("int16:-1_000"), vec![0xfc, 0x18]);
    assert_eq!(packed("int8:+5"), vec![5]);
}

#[test]
fn signed_integers_are_twos_complement() {
    assert_eq!(packed("int8:0"), vec![0x00]);
    assert_eq!(packed("int8:-0"), vec![0x00]);
    assert_eq!(packed("int8:1"), vec![0x01]);
    assert_eq!(packed("int8:-1"), vec![0xff]);
    assert_eq!(packed("int8:127"), vec![0x7f]);
    assert_eq!(packed("int8:-128"), vec![0x80]);
    assert_eq!(packed("int16:-1125"), vec![251, 155]);
    assert_eq!(packed("int16:128"), vec![0x00, 0x80]);
    assert_eq!(packed("int16:-129"), vec![0xff, 0x7f]);
    assert_eq!(packed("int16:-256"), vec![0xff, 0x00]);
    assert_eq!(packed("int16:32767"), vec![0x7f, 0xff]);
    assert_eq!(packed("int16:-32768"), vec![0x80, 0x00]);
}

#[test]
fn negative_integers_are_sign_extended() {
    assert_eq!(packed("int16:-1"), vec![0xff, 0xff]);
    assert_eq!(packed("int32:-2"), vec![0xff, 0xff, 0xff, 0xfe]);
    assert_eq!(packed("int:-1"), vec![0xff; 32]);
    let mut expected = vec![0xffu8; 32];
    expected[31] = 0x80;
    assert_eq!(packed("int256:-128"), expected);
    let mut positive = vec![0u8; 32];
    positive[31] = 0x80;
    assert_eq!(packed("int256:128"), positive);
}

#[test]
fn signed_integers_at_the_ends_of_256_bits() {
    let mut least = vec![0u8; 32];
    least[0] = 0x80;
    assert_eq!(
        packed(
            "int256:-57896044618658097711785492504343953926634992332820282019728792003956564819968"
        ),
        least
    );
    let mut greatest = vec![0xffu8; 32];
    greatest[0] = 0x7f;
    assert_eq!(
        packed(
            "int256:57896044618658097711785492504343953926634992332820282019728792003956564819967"
        ),
        greatest
    );
    assert!(matches!(
        encode_abi_packed(
            "int256:57896044618658097711785492504343953926634992332820282019728792003956564819968"
        ),
        Err(ABIError::InvalidValue(_))
    ));
    assert!(matches!(
        encode_abi_packed(
            "int256:-57896044618658097711785492504343953926634992332820282019728792003956564819969"
        ),
        Err(ABIError::InvalidValue(_))
    ));
}

#[test]
fn signed_integers_that_do_not_fit_are_refused() {
    match encode_abi_packed("int8:128") {
        Err(ABIError::InvalidValue(m)) => assert_eq!(m, "value does not fit the type"),
        other => panic!("unexpected: {:?}", other),
    }
    assert!(matches!(encode_abi_packed("int8:-129"), Err(ABIError::InvalidValue(_))));
    assert!(matches!(encode_abi_packed("int16:32768"), Err(ABIError::InvalidValue(_))));
    assert!(matches!(encode_abi_packed("int16:-32769"), Err(ABIError::InvalidValue(_))));
}

#[test]
fn signed_integers_must_be_decimal() {
    match encode_abi_packed("int8:-") {
        Err(ABIError::InvalidValue(m)) => assert_eq!(m, "cannot parse integer from empty string"),
        other => panic!("unexpected: {:?}", other),
    }
    match encode_abi_packed("int8:-+5") {
        Err(ABIError::InvalidValue(m)) => assert_eq!(m, "invalid digit found in string"),
        other => panic!("unexpected: {:?}", other),
    }
    assert!(matches!(encode_abi_packed("int8:--5"), Err(ABIError::InvalidValue(_))));
    assert!(matches!(encode_abi_packed("int8:+-5"), Err(ABIError::InvalidValue(_))));
    assert!(matches!(encode_abi_packed("int8:-_5"), Err(ABIError::InvalidValue(_))));
    assert!(matches!(encode_abi_packed("int8:"), Err(ABIError::InvalidValue(_))));
}

#[test]
fn every_unsigned_byte_round_trips() {
    for v in 0u32..=255 {
        let out = packed(&format!("uint8:{}", v));
        assert_eq!(out, vec![v as u8]);
        let wide = packed(&format!("uint24:{}", v * 257));
        assert_eq!(wide.len(), 3);
        let back = ((wide[0] as u32) << 16) | ((wide[1] as u32) << 8) | wide[2] as u32;
        assert_eq!(back, v * 257);
    }
}

#[test]
fn every_signed_sixteen_bit_number_round_trips() {
    for v in i16::MIN..=i16::MAX {
        let out = packed(&format!("int16:{}", v));
        assert_eq!(out.len(), 2);
        assert_eq!(i16::from_be_bytes([out[0], out[1]]), v);
        let wide = packed(&format!("int32:{}", v));
        assert_eq!(wide.len(), 4);
        assert_eq!(i32::from_be_bytes([wide[0], wide[1], wide[2], wide[3]]), v as i32);
    }
}

#[test]
fn fixed_point_is_unimplemented() {
    assert!(matches!(encode_abi_packed("fixed128x18:1.5"), Err(ABIError::Unimplemented)));
    assert!(matches!(encode_abi_packed("ufixed128x18:1.5"), Err(ABIError::Unimplemented)));
    assert!(matches!(encode_abi_packed("fixed8x0:"), Err(ABIError::Unimplemented)));
}

#[test]
fn encode_field_appends_to_what_is_there() {
    let mut buf = vec![0xaa];
    encode_field("uint16:258", &mut buf).unwrap();
    assert_eq!(buf, vec![0xaa, 0x01, 0x02]);
    encode_field("bool:true", &mut buf).unwrap();
    assert_eq!(buf, vec![0xaa, 0x01, 0x02, 0x01]);
}

#[test]
fn encode_field_leaves_the_buffer_alone_on_failure() {
    let mut buf = vec![0xaa, 0xbb];
    assert!(encode_field("uint8:256", &mut buf).is_err());
    assert!(encode_field("bytes4:0x00", &mut buf).is_err());
    assert!(encode_field("address:0x00", &mut buf).is_err());
    assert!(encode_field("bool:no", &mut buf).is_err());
    assert!(encode_field("nothing", &mut buf).is_err());
    assert!(encode_field("a,b:c", &mut buf).is_err());
    assert_eq!(buf, vec![0xaa, 0xbb]);
}

#[test]
fn encode_field_takes_a_comma_as_part_of_the_value() {
    let mut buf = Vec::new();
    encode_field("string:a,b", &mut buf).unwrap();
    assert_eq!(buf, b"a,b".to_vec());
}

#[test]
fn encoders_by_type_append() {
    let mut buf = vec![9u8];
    encode_packed_bool("true", &mut buf).unwrap();
    encode_packed_string("hi", &mut buf).unwrap();
    encode_packed_bytes("0x0102", &mut buf).unwrap();
    encode_packed_bytesn("0304", &2, &mut buf).unwrap();
    encode_packed_uintn("5", &16, &mut buf).unwrap();
    encode_packed_intn("-5", &16, &mut buf).unwrap();
    assert_eq!(buf, vec![9, 1, b'h', b'i', 1, 2, 3, 4, 0, 5, 0xff, 0xfb]);
    let mut addr = Vec::new();
    encode_packed_address("0x0102030405060708090a0b0c0d0e0f1011121314", &mut addr).unwrap();
    assert_eq!(addr, (1u8..=20).collect::<Vec<u8>>());
}

#[test]
fn encode_packed_goes_by_the_type() {
    let mut buf = Vec::new();
    ABIField::UintN(8).encode_packed("7", &mut buf).unwrap();
    ABIField::IntN(8).encode_packed("-7", &mut buf).unwrap();
    ABIField::Boolean.encode_packed("false", &mut buf).unwrap();
    ABIField::String.encode_packed("x", &mut buf).unwrap();
    ABIField::Bytes.encode_packed("ff", &mut buf).unwrap();
    ABIField::BytesN(1).encode_packed("ee", &mut buf).unwrap();
    assert_eq!(buf, vec![7, 0xf9, 0, b'x', 0xff, 0xee]);
    assert!(matches!(
        ABIField::FixedN(8, 1).encode_packed("1", &mut buf),
        Err(ABIError::Unimplemented)
    ));
    assert!(matches!(
        ABIField::UFixedN(8, 1).encode_packed("1", &mut buf),
        Err(ABIError::Unimplemented)
    ));
    assert_eq!(buf.len(), 6);
}

#[test]
fn the_command_shows_the_bytes_as_hex() {
    assert_eq!(execute_encode_packed_cmd("bytes:0xdead").unwrap(), "0xdead");
    assert_eq!(
        execute_encode_packed_cmd("uint16:1,string:a").unwrap(),
        "0x000161"
    );
    assert!(matches!(
        execute_encode_packed_cmd("uint8-5"),
        Err(ABIError::InvalidFieldDefinition)
    ));
}

fn value_message(spec: &str) -> String {
    match encode_abi_packed(spec) {
        Err(ABIError::InvalidValue(m)) => m,
        other => panic!("unexpected: {:?}", other),
    }
}

#[test]
fn integer_messages_tell_empty_from_foreign() {
    let empty = "cannot parse integer from empty string";
    let foreign = "invalid digit found in string";
    assert_eq!(value_message("uint8:"), empty);
    assert_eq!(value_message("uint8:+"), empty);
    assert_eq!(value_message("int8:"), empty);
    assert_eq!(value_message("int8:-"), empty);
    assert_eq!(value_message("int8:+"), empty);
    assert_eq!(value_message("int8:-+"), foreign);
    assert_eq!(value_message("int8:--"), foreign);
    assert_eq!(value_message("uint8:++"), foreign);
    assert_eq!(value_message("uint8:_"), foreign);
    assert_eq!(value_message("uint8:_1"), foreign);
    assert_eq!(value_message("uint8:1a"), foreign);
    assert_eq!(value_message("uint8:a"), foreign);
    assert_eq!(value_message("uint8:-"), foreign);
    assert_eq!(value_message("uint8:1.5"), foreign);
    assert_eq!(value_message("uint8:٣"), foreign);
    assert_eq!(value_message("int8:-٣"), foreign);
}

#[test]
fn fixed_bytes_with_an_odd_number_of_digits_are_no_hex() {
    match encode_abi_packed("bytes2:abc") {
        Err(ABIError::IOError(m)) => assert_eq!(m, "Odd number of digits"),
        other => panic!("unexpected: {:?}", other),
    }
    assert!(matches!(encode_abi_packed("bytes1:a"), Err(ABIError::IOError(_))));
}

#[test]
fn a_value_with_two_markers_is_no_hex() {
    assert!(matches!(encode_abi_packed("bytes:0x0x01"), Err(ABIError::IOError(_))));
    assert!(matches!(encode_abi_packed("bytes1:0x0x01"), Err(ABIError::IOError(_))));
}
