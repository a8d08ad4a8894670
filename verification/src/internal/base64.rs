//! The base64 codec behind the CLIXML `<BA>` element.

use vstd::prelude::*;
use crate::clixml::base64::{base64_encode, base64_decode, b64_encode_spec, b64_decode_spec};

verus! {

/// The CLIXML `<BA>` base64 encoder.
pub fn encode(bytes: &[u8]) -> (r: String)
    ensures
        r@ == b64_encode_spec(bytes@),
{
    base64_encode(bytes)
}

/// The CLIXML `<BA>` base64 decoder: whitespace is skipped and the
/// first `=` ends the input.
pub fn decode(s: &str) -> (r: Option<Vec<u8>>)
    ensures
        match r {
            Some(v) => b64_decode_spec(s@) == Some(v@),
            None => b64_decode_spec(s@) is None,
        },
{
    base64_decode(s)
}

} // verus!
