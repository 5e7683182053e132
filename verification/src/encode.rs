//! Raw data shown as hexadecimal text.

use crate::util::{hex_encode, hex_text};
use vstd::prelude::*;
use vstd::string::StringSliceAdditionalSpecFns;

verus! {

/// The bytes `input` as hexadecimal text with `0x` in front. The bytes are
/// taken as they are, which is what the one encoding on offer, `utf-8`, asks
/// for.
pub fn execute_encode_hex_cmd(input: &[u8], encoding: &str) -> (out: String)
    requires
        encoding.spec_bytes() == "utf-8".spec_bytes(),
    ensures
        out@ == "0x"@ + hex_text(input@),
{
    let digits = hex_encode(input);
    String::from_str("0x").concat(digits.as_str())
}

} // verus!
