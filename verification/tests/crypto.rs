use ethtool::crypto::{
    eth_signed_message, execute_decompose_sig_cmd, execute_eth_signed_msg_cmd,
    execute_keccak256, execute_ripemd_160, execute_sha2_256, execute_sign_cmd, CryptoCmdError,
};
use secp256k1::{Message, PublicKey, RecoverableSignature, RecoveryId, Secp256k1, SecretKey};

#[test]
fn keccak256_of_known_inputs() {
    assert_eq!(
        execute_keccak256(b""),
        "0xc5d2460186f7233c927e7db2dcc703c0e500b653ca82273b7bfad8045d85a470"
    );
    assert_eq!(
        execute_keccak256(b"abc"),
        "0x4e03657aea45a94fc7d47ba826c8d667c0d1e6e33a64a036ec44f58fa12d6c45"
    );
}

#[test]
fn sha256_of_known_inputs() {
    assert_eq!(
        execute_sha2_256(b""),
        "0xe3b0c44298fc1c149afbf4c8996fb92427ae41e4649b934ca495991b7852b855"
    );
    assert_eq!(
        execute_sha2_256(b"abc"),
        "0xba7816bf8f01cfea414140de5dae2223b00361a396177a9cb410ff61f20015ad"
    );
}

#[test]
fn ripemd160_of_known_inputs() {
    assert_eq!(execute_ripemd_160(b""), "0x9c1185a5c5e9fc54612808977ee8f548b2258d31");
    assert_eq!(execute_ripemd_160(b"abc"), "0x8eb208f7e05d987a9b044a8e98c6b087f15a0bfc");
}

#[test]
fn signed_message_carries_heading_and_length() {
    assert_eq!(eth_signed_message(b"hello"), b"\x19Ethereum Signed Message:\n5hello".to_vec());
    assert_eq!(eth_signed_message(b""), b"\x19Ethereum Signed Message:\n0".to_vec());
    let long = vec![b'a'; 1234];
    let mut expected = b"\x19Ethereum Signed Message:\n1234".to_vec();
    expected.extend_from_slice(&long);
    assert_eq!(eth_signed_message(&long), expected);
}

#[test]
fn signed_message_hash_of_known_inputs() {
    assert_eq!(
        execute_eth_signed_msg_cmd(b"Hello World"),
        "0xa1de988600a42c4b4ab089b619297c17d53cffae5d5120d82d8a92d0bb3b78f2"
    );
    assert_eq!(
        execute_eth_signed_msg_cmd(b""),
        "0x5f35dce98ba4fba25530a026ed80b2cecdaa31091ba4958b99b52ea1d068adad"
    );
    assert_eq!(
        execute_eth_signed_msg_cmd(b"abc"),
        execute_keccak256(b"\x19Ethereum Signed Message:\n3abc")
    );
}

#[test]
fn a_signature_is_shown_in_three_lines() {
    let mut sig = vec![0x11u8; 32];
    sig.extend_from_slice(&[0x22u8; 32]);
    sig.push(27);
    let shown = execute_decompose_sig_cmd(&sig).unwrap();
    assert_eq!(
        shown,
        format!("R: {}\nS:{}\nV: 27", "11".repeat(32), "22".repeat(32))
    );
    sig[64] = 255;
    sig[0] = 0xab;
    let shown = execute_decompose_sig_cmd(&sig).unwrap();
    assert_eq!(
        shown,
        format!("R: ab{}\nS:{}\nV: 255", "11".repeat(31), "22".repeat(32))
    );
    sig[64] = 0;
    assert!(execute_decompose_sig_cmd(&sig).unwrap().ends_with("\nV: 0"));
}

#[test]
fn a_signature_of_another_length_is_refused() {
    assert!(matches!(
        execute_decompose_sig_cmd(&[0u8; 64]),
        Err(CryptoCmdError::InvalidSignatureLength)
    ));
    assert!(matches!(
        execute_decompose_sig_cmd(&[0u8; 66]),
        Err(CryptoCmdError::InvalidSignatureLength)
    ));
    assert!(matches!(execute_decompose_sig_cmd(&[]), Err(CryptoCmdError::InvalidSignatureLength)));
}

#[test]
fn signing_gives_a_signature_that_recovers_the_key() {
    let key_hex = "0x0101010101010101010101010101010101010101010101010101010101010101";
    let hash = [0x42u8; 32];
    let shown = execute_sign_cmd(&hash, key_hex).unwrap();
    assert!(shown.starts_with("0x"));
    let bytes = hex::decode(&shown[2..]).unwrap();
    assert_eq!(bytes.len(), 65);
    assert!(bytes[64] >= 27 && bytes[64] <= 30);
    let secp = Secp256k1::new();
    let id = RecoveryId::from_i32((bytes[64] - 27) as i32).unwrap();
    let sig = RecoverableSignature::from_compact(&bytes[..64], id).unwrap();
    let msg = Message::from_slice(&hash).unwrap();
    let recovered = secp.recover(&msg, &sig).unwrap();
    let secret = SecretKey::from_slice(&[1u8; 32]).unwrap();
    assert_eq!(recovered, PublicKey::from_secret_key(&secp, &secret));
    assert_ne!(&bytes[..32], &hash[..]);
    assert_eq!(execute_sign_cmd(&hash, key_hex).unwrap(), shown);
    assert_eq!(execute_sign_cmd(&hash, &key_hex[2..]).unwrap(), shown);
}

#[test]
fn signing_checks_key_text_before_input_length() {
    assert!(matches!(
        execute_sign_cmd(&[1u8; 31], "0xzz"),
        Err(CryptoCmdError::InvalidPrivateKey)
    ));
    assert!(matches!(
        execute_sign_cmd(&[1u8; 31], "0x01"),
        Err(CryptoCmdError::InvalidInputLength(32, 31))
    ));
    assert!(matches!(
        execute_sign_cmd(&[1u8; 33], &"01".repeat(32)),
        Err(CryptoCmdError::InvalidInputLength(32, 33))
    ));
}

#[test]
fn signing_with_a_key_that_is_none_is_refused() {
    let hash = [0x42u8; 32];
    assert!(matches!(execute_sign_cmd(&hash, "0x01"), Err(CryptoCmdError::InvalidPrivateKey)));
    assert!(matches!(
        execute_sign_cmd(&hash, &"00".repeat(32)),
        Err(CryptoCmdError::InvalidPrivateKey)
    ));
    assert!(matches!(
        execute_sign_cmd(&hash, &"ff".repeat(32)),
        Err(CryptoCmdError::InvalidPrivateKey)
    ));
    assert!(matches!(
        execute_sign_cmd(&[0u8; 32], &"01".repeat(32)),
        Err(CryptoCmdError::InvalidPrivateKey)
    ));
}

#[test]
fn crypto_errors_have_their_messages() {
    assert_eq!(CryptoCmdError::InvalidSignatureLength.to_string(), "invalid signature length");
    assert_eq!(CryptoCmdError::InvalidPrivateKey.to_string(), "invalid private key");
    assert_eq!(
        CryptoCmdError::InvalidInputLength(32, 7).to_string(),
        "invalid input length, expected 32 but got 7"
    );
    assert_eq!(
        CryptoCmdError::InvalidInputLength(0, 1234567890).to_string(),
        "invalid input length, expected 0 but got 1234567890"
    );
}
