use ethtool::abi::ABIError;
use ethtool::decimal::{decimal_string, parse_u16, IntFault};
use ethtool::encode::execute_encode_hex_cmd;
use ethtool::units::UnitError;
use ethtool::util::{parse_hex_input, CmdError, InputError};

#[test]
fn hex_input_needs_the_marker() {
    assert_eq!(parse_hex_input("0xdead").unwrap(), vec![0xde, 0xad]);
    assert_eq!(parse_hex_input("0x").unwrap(), Vec::<u8>::new());
    assert!(matches!(parse_hex_input("dead"), Err(InputError::NotHex)));
    assert!(matches!(parse_hex_input(""), Err(InputError::NotHex)));
    assert!(matches!(parse_hex_input("0"), Err(InputError::NotHex)));
    assert!(matches!(parse_hex_input("0Xdead"), Err(InputError::NotHex)));
}

#[test]
fn hex_input_reports_the_decoder_s_complaint() {
    assert!(matches!(
        parse_hex_input("0xabc"),
        Err(InputError::Malformed(hex::FromHexError::OddLength))
    ));
    assert!(matches!(
        parse_hex_input("0xab-d"),
        Err(InputError::Malformed(hex::FromHexError::InvalidHexCharacter { c: '-', index: 2 }))
    ));
    assert_eq!(InputError::NotHex.to_string(), "data is not hex-encoded");
    assert_eq!(
        InputError::Malformed(hex::FromHexError::OddLength).to_string(),
        "Odd number of digits"
    );
}

#[test]
fn raw_bytes_are_shown_as_hex() {
    assert_eq!(execute_encode_hex_cmd(b"hello", "utf-8"), "0x68656c6c6f");
    assert_eq!(execute_encode_hex_cmd(b"", "utf-8"), "0x");
    assert_eq!(execute_encode_hex_cmd(&[0x00, 0xff, 0x10], "utf-8"), "0x00ff10");
}

#[test]
fn numerals_are_written_without_leading_zeros() {
    assert_eq!(decimal_string(0), "0");
    assert_eq!(decimal_string(7), "7");
    assert_eq!(decimal_string(10), "10");
    assert_eq!(decimal_string(1234567890), "1234567890");
    assert_eq!(decimal_string(u64::MAX), "18446744073709551615");
    for n in 0u64..2000 {
        assert_eq!(decimal_string(n), n.to_string());
    }
}

#[test]
fn numerals_are_read_between_two_offsets() {
    assert_eq!(parse_u16(b"ab123cd", 2, 5), Ok(123));
    assert_eq!(parse_u16(b"ab123cd", 2, 2), Err(IntFault::Empty));
    assert_eq!(parse_u16(b"ab123cd", 1, 5), Err(IntFault::InvalidDigit));
    assert_eq!(parse_u16(b"65535", 0, 5), Ok(65535));
    assert_eq!(parse_u16(b"65536", 0, 5), Err(IntFault::TooLarge));
    assert_eq!(parse_u16(b"+0", 0, 2), Ok(0));
    assert_eq!(parse_u16(b"++0", 0, 3), Err(IntFault::InvalidDigit));
    assert_eq!(parse_u16(b"000000000000000000000012", 0, 24), Ok(12));
}

#[test]
fn every_sixteen_bit_number_is_read_back() {
    for n in 0u16..=u16::MAX {
        let text = decimal_string(n as u64);
        assert_eq!(parse_u16(text.as_bytes(), 0, text.len()), Ok(n));
    }
}

#[test]
fn abi_errors_have_their_messages() {
    assert_eq!(ABIError::IOError(String::from("Odd number of digits")).to_string(), "Odd number of digits");
    assert_eq!(ABIError::InvalidSize(33).to_string(), "33 is an invalid size");
    assert_eq!(ABIError::InvalidSize(0).to_string(), "0 is an invalid size");
    assert_eq!(ABIError::InvalidSize(65535).to_string(), "65535 is an invalid size");
    assert_eq!(
        ABIError::InvalidFieldType(String::from("float")).to_string(),
        "float is an invalid type"
    );
    assert_eq!(ABIError::InvalidFieldDefinition.to_string(), "invalid field definition");
    assert_eq!(
        ABIError::InvalidValue(String::from("invalid address")).to_string(),
        "invalid address is an invalid value"
    );
    assert_eq!(
        ABIError::ByteSizeMismatch.to_string(),
        "the size of the byte field specified does not match its actual size"
    );
    assert_eq!(ABIError::Unimplemented.to_string(), "this feature is unimplemented");
}

#[test]
fn other_errors_have_their_messages() {
    assert_eq!(
        CmdError::UnknownSubcommand(String::from("frobnicate")).to_string(),
        "unknown command frobnicate"
    );
    assert_eq!(UnitError::InvalidUnit(String::from("bushel")).to_string(), "invalid unit: bushel");
}
