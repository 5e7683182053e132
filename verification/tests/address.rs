use ethtool::address::{account_line, address_of, execute_generate_cmd, GenerateError};
use ethtool::decimal::IntFault;
use secp256k1::{PublicKey, Secp256k1, SecretKey};

fn generator() -> Vec<u8> {
    hex::decode(
        "0479be667ef9dcbbac55a06295ce870b07029bfcdb2dce28d959f2815b16f81798\
         483ada7726a3c4655da4fbfc0e1108a8fd17b448a68554199c47d08ffb10d4b8",
    )
    .unwrap()
}

#[test]
fn address_of_the_key_one() {
    assert_eq!(
        hex::encode(address_of(&generator())),
        "7e5f4552091a69125d5dfcb7b8c2659029395bdf"
    );
}

#[test]
fn account_line_shows_key_and_address() {
    let mut secret = vec![0u8; 32];
    secret[31] = 1;
    assert_eq!(
        account_line(&secret, &generator()),
        format!(
            "0x{}01 0x7e5f4552091a69125d5dfcb7b8c2659029395bdf",
            "00".repeat(31)
        )
    );
}

#[test]
fn generate_gives_as_many_lines_as_asked() {
    assert_eq!(execute_generate_cmd("0"), Ok(String::new()));
    let one = execute_generate_cmd("1").unwrap();
    assert_eq!(one.lines().count(), 1);
    assert!(!one.ends_with('\n'));
    let five = execute_generate_cmd("5").unwrap();
    assert_eq!(five.split('\n').count(), 5);
    assert!(!five.ends_with('\n'));
    assert_eq!(execute_generate_cmd("+3").unwrap().split('\n').count(), 3);
}

#[test]
fn generated_addresses_belong_to_their_keys() {
    let secp = Secp256k1::new();
    let text = execute_generate_cmd("3").unwrap();
    for line in text.split('\n') {
        let parts: Vec<&str> = line.split(' ').collect();
        assert_eq!(parts.len(), 2);
        assert!(parts[0].starts_with("0x") && parts[0].len() == 66);
        assert!(parts[1].starts_with("0x") && parts[1].len() == 42);
        let secret = SecretKey::from_slice(&hex::decode(&parts[0][2..]).unwrap()).unwrap();
        let public = PublicKey::from_secret_key(&secp, &secret).serialize_uncompressed();
        assert_eq!(hex::encode(address_of(&public)), &parts[1][2..]);
        assert_eq!(account_line(&secret[..], &public), line);
    }
}

#[test]
fn generated_keys_differ() {
    let text = execute_generate_cmd("2").unwrap();
    let lines: Vec<&str> = text.split('\n').collect();
    assert_ne!(lines[0], lines[1]);
}

#[test]
fn generate_refuses_what_is_no_count() {
    assert_eq!(execute_generate_cmd(""), Err(GenerateError::InvalidCount(IntFault::Empty)));
    assert_eq!(
        execute_generate_cmd("two"),
        Err(GenerateError::InvalidCount(IntFault::InvalidDigit))
    );
    assert_eq!(
        execute_generate_cmd("-1"),
        Err(GenerateError::InvalidCount(IntFault::InvalidDigit))
    );
    assert_eq!(
        execute_generate_cmd("65536"),
        Err(GenerateError::InvalidCount(IntFault::TooLarge))
    );
}

#[test]
fn every_generated_line_has_the_same_length() {
    let text = execute_generate_cmd("4").unwrap();
    for line in text.split('\n') {
        assert_eq!(line.len(), 109);
        assert_eq!(&line[66..69], " 0x");
    }
}
