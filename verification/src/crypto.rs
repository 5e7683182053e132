//! Hashes and signatures.

use crate::decimal::{decimal_string, decimal_text, push_decimal};
use crate::util::{decode_hex, encode_hex, hex_encode, hex_text};
use ::crypto::digest::Digest;
use ::crypto::ripemd160::Ripemd160;
use ::crypto::sha2::Sha256;
use ::crypto::sha3::Sha3;
use secp256k1::{Message, Secp256k1, SecretKey};
use vstd::prelude::*;
use vstd::slice::slice_subrange;
use vstd::string::{StrSliceExecFns, StringSliceAdditionalSpecFns};
use vstd::utf8::encode_utf8;

verus! {

/// Why a signing command is refused.
#[derive(Debug)]
pub enum CryptoCmdError {
    /// A signature is not 65 bytes long.
    InvalidSignatureLength,
    /// The input has the second length where the first is required.
    InvalidInputLength(usize, usize),
    /// The private key is no hexadecimal text, or the signer refuses it.
    InvalidPrivateKey,
}

impl CryptoCmdError {
    /// The message of this error.
    pub open spec fn spec_text(self) -> Seq<char> {
        match self {
            CryptoCmdError::InvalidSignatureLength => "invalid signature length"@,
            CryptoCmdError::InvalidPrivateKey => "invalid private key"@,
            CryptoCmdError::InvalidInputLength(expected, received) =>
                "invalid input length, expected "@ + decimal_text(expected as nat) + " but got "@
                + decimal_text(received as nat),
        }
    }

    /// The message of this error, for display.
    pub fn to_string(&self) -> (r: String)
        ensures
            r@ == self.spec_text(),
    {
        match self {
            CryptoCmdError::InvalidSignatureLength => String::from_str("invalid signature length"),
            CryptoCmdError::InvalidPrivateKey => String::from_str("invalid private key"),
            CryptoCmdError::InvalidInputLength(expected, received) => {
                let mut r = String::from_str("invalid input length, expected ");
                push_decimal(&mut r, *expected as u64);
                r.append(" but got ");
                push_decimal(&mut r, *received as u64);
                r
            },
        }
    }
}

/// The Keccak-256 digest of `data`, as the `rust-crypto` crate computes it.
pub uninterp spec fn keccak256_digest(data: Seq<u8>) -> Seq<u8>;

/// The SHA-256 digest of `data`, as the `rust-crypto` crate computes it.
pub uninterp spec fn sha256_digest(data: Seq<u8>) -> Seq<u8>;

/// The RIPEMD-160 digest of `data`, as the `rust-crypto` crate computes it.
pub uninterp spec fn ripemd160_digest(data: Seq<u8>) -> Seq<u8>;

/// The compact recoverable signature of the 32-byte message `msg` under the
/// secret key `key`, with its recovery id, as the `secp256k1` crate computes
/// it with the nonce of RFC 6979; `None` where the crate takes `key` for no
/// secret key or `msg` for no message.
pub uninterp spec fn recoverable_signature(msg: Seq<u8>, key: Seq<u8>) -> Option<(Seq<u8>, i32)>;

/// `Sha3::keccak256` fed with `data` once and asked for its result, which has
/// the 32 bytes that the hasher's `output_bytes` tells.
#[verifier::external_body]
pub(crate) fn keccak256(data: &[u8]) -> (out: Vec<u8>)
    ensures
        out@ == keccak256_digest(data@),
        out@.len() == 32,
{
    let mut hasher = Sha3::keccak256();
    hasher.input(data);
    let mut out = vec![0u8; hasher.output_bytes()];
    hasher.result(&mut out);
    out
}

/// `Sha256` fed with `data` once and asked for its result, which has the 32
/// bytes that the hasher's `output_bytes` tells.
#[verifier::external_body]
pub(crate) fn sha256(data: &[u8]) -> (out: Vec<u8>)
    ensures
        out@ == sha256_digest(data@),
        out@.len() == 32,
{
    let mut hasher = Sha256::new();
    hasher.input(data);
    let mut out = vec![0u8; hasher.output_bytes()];
    hasher.result(&mut out);
    out
}

/// `Ripemd160` fed with `data` once and asked for its result, which has the
/// 20 bytes that the hasher's `output_bytes` tells.
#[verifier::external_body]
pub(crate) fn ripemd160(data: &[u8]) -> (out: Vec<u8>)
    ensures
        out@ == ripemd160_digest(data@),
        out@.len() == 20,
{
    let mut hasher = Ripemd160::new();
    hasher.input(data);
    let mut out = vec![0u8; hasher.output_bytes()];
    hasher.result(&mut out);
    out
}

/// `Secp256k1::sign_recoverable` on the message and the key that
/// `Message::from_slice` and `SecretKey::from_slice` make of the two byte
/// strings, serialised by `serialize_compact`: 64 bytes and a recovery id
/// from 0 to 3. `None` where either `from_slice` refuses.
#[verifier::external_body]
pub(crate) fn sign_recoverable(msg: &[u8], key: &[u8]) -> (r: Option<(Vec<u8>, i32)>)
    ensures
        match recoverable_signature(msg@, key@) {
            Some((sig, id)) => r matches Some(got) && got.0@ == sig && got.1 == id,
            None => r is None,
        },
        r matches Some(got) ==> got.0@.len() == 64 && 0 <= got.1 <= 3,
{
    let sk = SecretKey::from_slice(key).ok()?;
    let m = Message::from_slice(msg).ok()?;
    let secp = Secp256k1::new();
    let (id, bytes) = secp.sign_recoverable(&m, &sk).serialize_compact();
    Some((bytes.to_vec(), id.to_i32()))
}

/// The Keccak-256 digest of `input` as hexadecimal text with `0x` in front.
pub fn execute_keccak256(input: &[u8]) -> (out: String)
    ensures
        out@ == "0x"@ + hex_text(keccak256_digest(input@)),
{
    let digest = keccak256(input);
    encode_hex(&digest)
}

/// The SHA-256 digest of `input` as hexadecimal text with `0x` in front.
pub fn execute_sha2_256(input: &[u8]) -> (out: String)
    ensures
        out@ == "0x"@ + hex_text(sha256_digest(input@)),
{
    let digest = sha256(input);
    encode_hex(&digest)
}

/// The RIPEMD-160 digest of `input` as hexadecimal text with `0x` in front.
pub fn execute_ripemd_160(input: &[u8]) -> (out: String)
    ensures
        out@ == "0x"@ + hex_text(ripemd160_digest(input@)),
{
    let digest = ripemd160(input);
    encode_hex(&digest)
}

/// What is hashed for a signed message: a fixed heading, the length of the
/// message as a decimal numeral, and the message.
pub open spec fn signed_message_preimage(data: Seq<u8>) -> Seq<u8> {
    "\x19Ethereum Signed Message:\n".spec_bytes() + encode_utf8(decimal_text(data.len())) + data
}

/// The bytes that are hashed for the signed message `data`.
pub fn eth_signed_message(data: &[u8]) -> (out: Vec<u8>)
    ensures
        out@ == signed_message_preimage(data@),
{
    let mut out = "\x19Ethereum Signed Message:\n".as_bytes_vec();
    let length = decimal_string(data.len() as u64);
    let mut numeral = length.as_str().as_bytes_vec();
    let mut message = vstd::slice::slice_to_vec(data);
    out.append(&mut numeral);
    out.append(&mut message);
    out
}

/// The hash that a wallet signs for the message `input`, as hexadecimal text
/// with `0x` in front.
pub fn execute_eth_signed_msg_cmd(input: &[u8]) -> (out: String)
    ensures
        out@ == "0x"@ + hex_text(keccak256_digest(signed_message_preimage(input@))),
{
    let preimage = eth_signed_message(input);
    execute_keccak256(preimage.as_slice())
}

/// The three lines that show the parts of a 65-byte signature.
pub open spec fn spec_decomposed(sig: Seq<u8>) -> Seq<char>
    recommends
        sig.len() == 65,
{
    "R: "@ + hex_text(sig.subrange(0, 32)) + "\nS:"@ + hex_text(sig.subrange(32, 64)) + "\nV: "@
        + decimal_text(sig[64] as nat)
}

/// Shows the parts of a signature: `R` and `S` in hexadecimal, 32 bytes
/// each, and the last byte `V` in decimal.
pub fn execute_decompose_sig_cmd(input: &[u8]) -> (r: Result<String, CryptoCmdError>)
    ensures
        input@.len() == 65 ==> r is Ok && r->Ok_0@ == spec_decomposed(input@),
        input@.len() != 65 ==> r matches Err(CryptoCmdError::InvalidSignatureLength),
{
    if input.len() != 65 {
        return Err(CryptoCmdError::InvalidSignatureLength);
    }
    let mut out = String::from_str("R: ");
    out.append(hex_encode(slice_subrange(input, 0, 32)).as_str());
    out.append("\nS:");
    out.append(hex_encode(slice_subrange(input, 32, 64)).as_str());
    out.append("\nV: ");
    push_decimal(&mut out, input[64] as u64);
    Ok(out)
}

/// What [`execute_sign_cmd`] returns: the signature's 64 bytes and the
/// recovery id plus 27 behind them, as hexadecimal text with `0x` in front.
/// The key is looked at first, then the length of the input.
pub open spec fn spec_signed(input: Seq<u8>, key_text: Seq<u8>) -> Result<
    Seq<char>,
    CryptoCmdError,
> {
    match crate::util::spec_decode_hex(key_text) {
        Err(_) => Err(CryptoCmdError::InvalidPrivateKey),
        Ok(key) => if input.len() != 32 {
            Err(CryptoCmdError::InvalidInputLength(32, input.len() as usize))
        } else {
            match recoverable_signature(input, key) {
                None => Err(CryptoCmdError::InvalidPrivateKey),
                Some((sig, id)) => Ok("0x"@ + hex_text(sig.push((id + 27) as u8))),
            }
        },
    }
}

/// Signs the 32-byte hash `input` with the secret key given in hexadecimal.
pub fn execute_sign_cmd(input: &[u8], pk_hex: &str) -> (r: Result<String, CryptoCmdError>)
    ensures
        match spec_signed(input@, pk_hex.spec_bytes()) {
            Ok(text) => r is Ok && r->Ok_0@ == text,
            Err(e) => r == Err::<String, CryptoCmdError>(e),
        },
{
    let key = match decode_hex(pk_hex) {
        Ok(key) => key,
        Err(_) => {
            return Err(CryptoCmdError::InvalidPrivateKey);
        },
    };
    if input.len() != 32 {
        return Err(CryptoCmdError::InvalidInputLength(32, input.len()));
    }
    match sign_recoverable(input, key.as_slice()) {
        None => Err(CryptoCmdError::InvalidPrivateKey),
        Some((sig, id)) => {
            let mut out = sig;
            out.push((id as u8) + 27);
            Ok(encode_hex(&out))
        },
    }
}

} // verus!
