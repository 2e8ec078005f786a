//! Request signatures.
use hmac::{Hmac, Mac};
use sha2::Sha256;
use vstd::prelude::*;
use vstd::string::*;

use crate::hexadecimal::hex_encode;
#[allow(unused_imports)]
use crate::hexadecimal::{encoding_decodes, hex_decoded, hex_text, HexError};
#[allow(unused_imports)]
use vstd::utf8::encode_utf8;

verus! {

/// HMAC with SHA-256 of a message under a key.
pub uninterp spec fn hmac_sha256(key: Seq<u8>, message: Seq<u8>) -> Seq<u8>;

/// Wraps `hmac::Hmac<sha2::Sha256>` (`new_from_slice`, which takes keys of every
/// length, `update`, `finalize`): the code is a function of key and message and
/// has thirty-two bytes.
#[verifier::external_body]
fn hmac_sha256_code(key: &[u8], message: &[u8]) -> (code: Vec<u8>)
    ensures
        code@ == hmac_sha256(key@, message@),
        code@.len() == 32,
{
    let mut mac = Hmac::<Sha256>::new_from_slice(key).unwrap();
    mac.update(message);
    mac.finalize().into_bytes().to_vec()
}

/// The signature parameter for an authentication code: its hexadecimal text.
pub fn signature_text(code: &[u8]) -> (signature: String)
    ensures
        signature@ == hex_text(code@),
{
    hex_encode(code)
}

/// The signature of a query under a secret key.
pub open spec fn signature_of(query: Seq<char>, secret_key: Seq<char>) -> Seq<char> {
    hex_text(
        hmac_sha256(vstd::utf8::encode_utf8(secret_key), vstd::utf8::encode_utf8(query)),
    )
}

/// Signs a query string with the account's secret key.
pub fn sign_request(query_string: &str, secret_key: &str) -> (signature: String)
    ensures
        signature@ == signature_of(query_string@, secret_key@),
        signature@.len() == 64,
        forall|i: int|
            0 <= i < signature@.len() ==> ('0' <= #[trigger] signature@[i] <= '9' || 'a'
                <= signature@[i] <= 'f'),
{
    let code = hmac_sha256_code(secret_key.as_bytes(), query_string.as_bytes());
    signature_text(code.as_slice())
}

/// A signature is made of its query and the secret key alone: its digits decode to
/// the HMAC with SHA-256 of the query under the key.
pub proof fn signature_decodes_to_the_code(query: Seq<char>, secret_key: Seq<char>)
    ensures
        hex_decoded(encode_utf8(signature_of(query, secret_key))) == Ok::<Seq<u8>, HexError>(
            hmac_sha256(encode_utf8(secret_key), encode_utf8(query)),
        ),
        !signature_of(query, secret_key).contains('&'),
{
    let code = hmac_sha256(encode_utf8(secret_key), encode_utf8(query));
    encoding_decodes(code);
}

} // verus!
