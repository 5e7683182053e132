//! New accounts: a key pair and the address that belongs to it.

use crate::crypto::{keccak256, keccak256_digest};
use crate::decimal::{parse_u16, spec_parse_u16, IntFault};
use crate::util::{encode_hex, hex_encode, hex_text};
use rand::OsRng;
use secp256k1::Secp256k1;
use vstd::prelude::*;
use vstd::slice::slice_subrange;
use vstd::string::StringSliceAdditionalSpecFns;

verus! {

/// Why no accounts were generated.
#[derive(Debug, PartialEq, Eq)]
pub enum GenerateError {
    /// The number of accounts asked for is no 16-bit decimal numeral.
    InvalidCount(IntFault),
    /// The operating system gave no source of randomness.
    NoRandomness,
}

impl GenerateError {
    /// The message of this error.
    pub open spec fn spec_text(self) -> Seq<char> {
        match self {
            GenerateError::InvalidCount(fault) => fault.spec_text(),
            GenerateError::NoRandomness => "no source of randomness"@,
        }
    }

    /// The message of this error, for display.
    pub fn to_string(&self) -> (r: String)
        ensures
            r@ == self.spec_text(),
    {
        match self {
            GenerateError::InvalidCount(fault) => fault.to_string(),
            GenerateError::NoRandomness => String::from_str("no source of randomness"),
        }
    }
}

/// A secret key and the uncompressed public key that belongs to it.
pub type KeyPair = (Seq<u8>, Seq<u8>);

/// The address of an uncompressed public key: the last 20 bytes of the
/// Keccak-256 digest of the key without its first byte.
pub open spec fn spec_address(public_key: Seq<u8>) -> Seq<u8> {
    keccak256_digest(public_key.skip(1)).skip(12)
}

/// A key pair as the generator gives it: 32 bytes of secret key, 65 bytes of
/// public key, and an address of 20 bytes.
pub open spec fn is_key_pair(keys: KeyPair) -> bool {
    keys.0.len() == 32 && keys.1.len() == 65 && spec_address(keys.1).len() == 20
}

/// The line that shows an account: the secret key and the address, both in
/// hexadecimal with `0x` in front and a space between them.
pub open spec fn spec_account_line(keys: KeyPair) -> Seq<char> {
    "0x"@ + hex_text(keys.0) + " "@ + ("0x"@ + hex_text(spec_address(keys.1)))
}

/// The lines of several accounts, with a line feed between one and the next.
pub open spec fn spec_accounts(keys: Seq<KeyPair>) -> Seq<char>
    decreases keys.len(),
{
    if keys.len() == 0 {
        Seq::empty()
    } else if keys.len() == 1 {
        spec_account_line(keys[0])
    } else {
        spec_accounts(keys.drop_last()) + "\n"@ + spec_account_line(keys.last())
    }
}

/// The line of a key pair has 109 characters: `0x` and 64 digits for the
/// key, a space, `0x` and 40 digits for the address.
pub proof fn lemma_account_line_len(keys: KeyPair)
    requires
        is_key_pair(keys),
    ensures
        spec_account_line(keys).len() == 109,
        spec_account_line(keys).subrange(2, 66) == hex_text(keys.0),
        spec_account_line(keys).subrange(69, 109) == hex_text(spec_address(keys.1)),
{
    reveal_strlit("0x");
    reveal_strlit(" ");
    let line = spec_account_line(keys);
    assert(hex_text(keys.0).len() == 64);
    assert(hex_text(spec_address(keys.1)).len() == 40);
    assert(line.len() == 109);
    assert(line.subrange(2, 66) =~= hex_text(keys.0));
    assert(line.subrange(69, 109) =~= hex_text(spec_address(keys.1)));
}

/// A key pair from `Secp256k1::generate_keypair`, drawn from the operating
/// system's randomness (`OsRng`): the 32 bytes of the secret key and the 65
/// bytes of `serialize_uncompressed`. `None` where `OsRng::new` fails.
/// Nothing else is claimed of the keys: every call draws anew.
#[verifier::external_body]
pub(crate) fn generate_keypair() -> (r: Option<(Vec<u8>, Vec<u8>)>)
    ensures
        r matches Some(pair) ==> pair.0@.len() == 32 && pair.1@.len() == 65,
{
    let mut rng = OsRng::new().ok()?;
    let secp = Secp256k1::new();
    let (secret, public) = secp.generate_keypair(&mut rng);
    Some((secret[..].to_vec(), public.serialize_uncompressed().to_vec()))
}

/// The address of an uncompressed public key.
pub fn address_of(public_key: &[u8]) -> (address: Vec<u8>)
    requires
        public_key@.len() >= 1,
    ensures
        address@ == spec_address(public_key@),
        address@.len() == 20,
{
    let body = slice_subrange(public_key, 1, public_key.len());
    assert(body@ =~= public_key@.skip(1));
    let digest = keccak256(body);
    let tail = slice_subrange(digest.as_slice(), 12, 32);
    assert(tail@ =~= digest@.skip(12));
    vstd::slice::slice_to_vec(tail)
}

/// The line that shows the account of a key pair.
pub fn account_line(secret: &[u8], public_key: &[u8]) -> (line: String)
    requires
        public_key@.len() >= 1,
    ensures
        line@ == spec_account_line((secret@, public_key@)),
        spec_address(public_key@).len() == 20,
{
    let address = address_of(public_key);
    let mut line = String::from_str("0x");
    line.append(hex_encode(secret).as_str());
    line.append(" ");
    line.append(encode_hex(&address).as_str());
    line
}

/// Generates as many accounts as the decimal numeral `input` says and shows
/// them line by line. The keys are random: the contract says that the text
/// shows that many key pairs, each of 32 and 65 bytes with an address of 20,
/// not which. Asking for none always succeeds;
/// asking for more fails where the system gives no randomness.
pub fn execute_generate_cmd(input: &str) -> (r: Result<String, GenerateError>)
    ensures
        match spec_parse_u16(input.spec_bytes()) {
            Err(f) => r == Err::<String, GenerateError>(GenerateError::InvalidCount(f)),
            Ok(count) => r == Err::<String, GenerateError>(GenerateError::NoRandomness) || (r is Ok
                && exists|keys: Seq<KeyPair>|
                keys.len() == count && (forall|i: int|
                    0 <= i < keys.len() ==> is_key_pair(#[trigger] keys[i])) && r->Ok_0@
                    == #[trigger] spec_accounts(keys)),
        },
        spec_parse_u16(input.spec_bytes()) == Ok::<u16, IntFault>(0) ==> r is Ok,
{
    let text = input.as_bytes();
    assert(text@.subrange(0, text@.len() as int) =~= text@);
    let count = match parse_u16(text, 0, text.len()) {
        Ok(count) => count,
        Err(f) => {
            return Err(GenerateError::InvalidCount(f));
        },
    };
    let mut out = String::new();
    let ghost mut keys: Seq<KeyPair> = Seq::empty();
    let mut i: u16 = 0;
    while i < count
        invariant
            i <= count,
            spec_parse_u16(input.spec_bytes()) == Ok::<u16, IntFault>(count),
            keys.len() == i,
            forall|j: int| 0 <= j < keys.len() ==> is_key_pair(#[trigger] keys[j]),
            out@ == spec_accounts(keys),
        decreases count - i,
    {
        let (secret, public_key) = match generate_keypair() {
            Some(pair) => pair,
            None => {
                return Err(GenerateError::NoRandomness);
            },
        };
        if i != 0 {
            out.append("\n");
        }
        let line = account_line(secret.as_slice(), public_key.as_slice());
        out.append(line.as_str());
        proof {
            let longer = keys.push((secret@, public_key@));
            assert(longer.drop_last() =~= keys);
            if i == 0 {
                assert(out@ =~= spec_account_line(longer[0]));
            }
            keys = longer;
        }
        i = i + 1;
    }
    Ok(out)
}

} // verus!
