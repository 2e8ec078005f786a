//! The notary's signing key and the file that keeps it.
use k256::ecdsa::SigningKey;
use vstd::prelude::*;
use vstd::string::*;

use crate::hexadecimal::{hex_decode, hex_encode, HexError};
#[allow(unused_imports)]
use crate::hexadecimal::{encoding_decodes, hex_decoded, hex_text};
use crate::text::{decimal, trim};
#[allow(unused_imports)]
use crate::text::{
    decimal_text, is_white_space, trimmed, trimmed_end, trimmed_start,
    trimming_takes_white_space_off,
};
#[allow(unused_imports)]
use vstd::utf8::encode_utf8;

verus! {

/// The number that bytes stand for, the most significant first.
pub open spec fn big_endian(bytes: Seq<u8>) -> nat
    decreases bytes.len(),
{
    if bytes.len() == 0 {
        0
    } else {
        256 * big_endian(bytes.drop_last()) + bytes.last() as nat
    }
}

/// The order of the secp256k1 group.
pub open spec fn curve_order() -> nat {
    0xFFFFFFFF_FFFFFFFF_FFFFFFFF_FFFFFFFE_BAAEDCE6_AF48A03B_BFD25E8C_D0364141nat
}

/// The bytes are a secp256k1 signing key: a number above zero and below the group order.
pub open spec fn is_signing_key(key: Seq<u8>) -> bool {
    key.len() == 32 && 0 < big_endian(key) < curve_order()
}

/// The uncompressed SEC1 encoding of the public key of a signing key.
pub uninterp spec fn sec1_public_key(key: Seq<u8>) -> Seq<u8>;

/// Wraps `k256::ecdsa::SigningKey::random` with the operating system's
/// generator: every outcome is a signing key.
#[verifier::external_body]
fn random_signing_key() -> (key: [u8; 32])
    ensures
        is_signing_key(key@),
{
    SigningKey::random(&mut k256::elliptic_curve::rand_core::OsRng).to_bytes().into()
}

/// Wraps `k256::ecdsa::SigningKey::from_bytes`, which takes exactly the numbers
/// above zero and below the group order, and `VerifyingKey::to_encoded_point` without
/// compression: a four and two coordinates of thirty-two bytes, a function of
/// the key.
#[verifier::external_body]
fn k256_public_key(key: &[u8; 32]) -> (point: Option<Vec<u8>>)
    ensures
        point is Some <==> is_signing_key(key@),
        point matches Some(p) ==> p@ == sec1_public_key(key@) && p@.len() == 65 && p@[0] == 4,
{
    let key = SigningKey::from_bytes(key.into()).ok();
    key.map(|k| k.verifying_key().to_encoded_point(false).as_bytes().to_vec())
}

/// Why a key file cannot be used.
#[derive(Clone, Copy, Debug)]
pub enum KeyError {
    /// The text is not hexadecimal.
    NotHex(HexError),
    /// The key has this many bytes and not thirty-two.
    WrongLength(usize),
}

/// The key that a hexadecimal text stands for.
pub open spec fn key_of(key_hex: Seq<char>) -> Result<Seq<u8>, KeyError> {
    match hex_decoded(vstd::utf8::encode_utf8(key_hex)) {
        Err(e) => Err(KeyError::NotHex(e)),
        Ok(raw) => if raw.len() != 32 {
            Err(KeyError::WrongLength(raw.len() as usize))
        } else {
            Ok(raw)
        },
    }
}

/// Reads a signing key of thirty-two bytes from hexadecimal text.
pub fn parse_key_hex(key_hex: &str) -> (key: Result<[u8; 32], KeyError>)
    ensures
        match key {
            Ok(k) => key_of(key_hex@) == Ok::<Seq<u8>, KeyError>(k@),
            Err(e) => key_of(key_hex@) == Err::<Seq<u8>, KeyError>(e),
        },
{
    match hex_decode(key_hex.as_bytes()) {
        Err(e) => Err(KeyError::NotHex(e)),
        Ok(raw) => {
            if raw.len() != 32 {
                return Err(KeyError::WrongLength(raw.len()));
            }
            let mut out = [0u8;32];
            let mut i: usize = 0;
            while i < 32
                invariant
                    i <= 32,
                    raw@.len() == 32,
                    forall|j: int| 0 <= j < i ==> out@[j] == raw@[j],
                decreases 32 - i,
            {
                out[i] = raw[i];
                i = i + 1;
            }
            proof {
                assert(out@ =~= raw@);
            }
            Ok(out)
        },
    }
}

/// The message of a key error.
pub open spec fn key_error_message(error: KeyError) -> Seq<char> {
    match error {
        KeyError::NotHex(_) => "Notary key file is not valid hex"@,
        KeyError::WrongLength(n) => "Notary key must be exactly 32 bytes (64 hex chars), got "@
            + decimal_text(n as nat) + " bytes"@,
    }
}

impl KeyError {
    /// What to tell the operator.
    pub fn message(&self) -> (text: String)
        ensures
            text@ == key_error_message(*self),
    {
        match self {
            KeyError::NotHex(_) => "Notary key file is not valid hex".to_owned(),
            KeyError::WrongLength(n) => {
                "Notary key must be exactly 32 bytes (64 hex chars), got ".to_owned().concat(
                    decimal(*n as u64).as_str(),
                ).concat(" bytes")
            },
        }
    }
}

/// What the notary does about its key file.
pub enum SigningKeyPlan {
    /// The file holds this key.
    Use([u8; 32]),
    /// There is no file: write `file_text` to it, for the owner only, and use
    /// `key`.
    Create { key: [u8; 32], file_text: String },
    /// The file cannot be used.
    Reject(KeyError),
}

/// The text of the key file of a key: its hexadecimal digits and a line end.
pub open spec fn key_file_text(key: Seq<u8>) -> Seq<char> {
    hex_text(key) + "\n"@
}

/// The plan is to create the file of `key`.
pub open spec fn creates(plan: SigningKeyPlan, key: Seq<u8>) -> bool {
    plan matches SigningKeyPlan::Create { key: k, file_text } && k@ == key && file_text@
        == key_file_text(key)
}

/// The plan for a key file with this text: white space around the digits does
/// not count.
pub fn existing_key_plan(file_text: &str) -> (plan: SigningKeyPlan)
    ensures
        match plan {
            SigningKeyPlan::Use(k) => key_of(trimmed(file_text@)) == Ok::<Seq<u8>, KeyError>(k@),
            SigningKeyPlan::Reject(e) => key_of(trimmed(file_text@)) == Err::<Seq<u8>, KeyError>(e),
            SigningKeyPlan::Create { .. } => false,
        },
{
    match parse_key_hex(trim(file_text).as_str()) {
        Ok(key) => SigningKeyPlan::Use(key),
        Err(e) => SigningKeyPlan::Reject(e),
    }
}

/// The plan for a missing key file, once `key` has been drawn.
pub fn new_key_plan(key: [u8; 32]) -> (plan: SigningKeyPlan)
    ensures
        creates(plan, key@),
{
    let key_hex = hex_encode(key.as_slice());
    proof {
        encoding_decodes(key@);
    }
    match parse_key_hex(key_hex.as_str()) {
        Ok(read) => SigningKeyPlan::Create { key: read, file_text: key_hex.concat("\n") },
        Err(e) => SigningKeyPlan::Reject(e),
    }
}

/// Decides on the signing key, given the text of the key file where there is
/// one: use the key in it, or draw a new one.
pub fn load_or_create_signing_key(existing: Option<&str>) -> (plan: SigningKeyPlan)
    ensures
        match existing {
            Some(text) => match plan {
                SigningKeyPlan::Use(k) => key_of(trimmed(text@)) == Ok::<Seq<u8>, KeyError>(k@),
                SigningKeyPlan::Reject(e) => key_of(trimmed(text@)) == Err::<Seq<u8>, KeyError>(e),
                SigningKeyPlan::Create { .. } => false,
            },
            None => exists|key: Seq<u8>| is_signing_key(key) && #[trigger] creates(plan, key),
        },
{
    match existing {
        Some(text) => existing_key_plan(text),
        None => {
            let key = random_signing_key();
            let plan = new_key_plan(key);
            proof {
                assert(creates(plan, key@));
            }
            plan
        },
    }
}

/// The public key that verifiers pin, in uncompressed form; none if the bytes
/// are not a signing key.
pub fn notary_public_key(key: &[u8; 32]) -> (point: Option<Vec<u8>>)
    ensures
        point is Some <==> is_signing_key(key@),
        point matches Some(p) ==> p@ == sec1_public_key(key@) && p@.len() == 65 && p@[0] == 4,
{
    k256_public_key(key)
}

/// A public key as verifiers compare it: in hexadecimal.
pub fn public_key_text(key: &[u8]) -> (text: String)
    ensures
        text@ == hex_text(key@),
{
    hex_encode(key)
}

/// A key file reads back as the key that it was written for, so the notary keeps
/// its identity across restarts.
pub proof fn key_file_reads_back(key: Seq<u8>)
    requires
        key.len() == 32,
    ensures
        key_of(trimmed(key_file_text(key))) == Ok::<Seq<u8>, KeyError>(key),
{
    let digits = hex_text(key);
    let text = key_file_text(key);
    reveal_strlit("\n");
    assert(!is_white_space(digits[0]));
    assert(!is_white_space(digits[63]));
    assert(text[0] == digits[0]);
    assert(trimmed_start(text) == text);
    assert(text.last() == '\n');
    assert(text.drop_last() =~= digits);
    assert(trimmed_end(text) == trimmed_end(digits));
    assert(digits.last() == digits[63]);
    assert(trimmed_end(digits) == digits);
    encoding_decodes(key);
}

/// A key is what its hexadecimal digits decode to, if that is thirty-two bytes; an
/// error of the digits is passed on, and another length is an error too.
pub proof fn key_is_what_its_digits_decode_to(text: Seq<char>)
    ensures
        match hex_decoded(encode_utf8(text)) {
            Ok(bytes) => if bytes.len() == 32 {
                key_of(text) == Ok::<Seq<u8>, KeyError>(bytes)
            } else {
                key_of(text) == Err::<Seq<u8>, KeyError>(
                    KeyError::WrongLength(bytes.len() as usize),
                )
            },
            Err(e) => key_of(text) == Err::<Seq<u8>, KeyError>(KeyError::NotHex(e)),
        },
{
}

/// White space around the digits of a key does not count.
pub proof fn key_is_read_between_white_space(before: Seq<char>, key: Seq<u8>, after: Seq<char>)
    requires
        key.len() == 32,
        forall|i: int| 0 <= i < before.len() ==> is_white_space(#[trigger] before[i]),
        forall|i: int| 0 <= i < after.len() ==> is_white_space(#[trigger] after[i]),
    ensures
        key_of(trimmed(before + hex_text(key) + after)) == Ok::<Seq<u8>, KeyError>(key),
{
    let digits = hex_text(key);
    assert(!is_white_space(digits[0]));
    assert(!is_white_space(digits[63]));
    assert(digits.last() == digits[63]);
    trimming_takes_white_space_off(before, digits, after);
    encoding_decodes(key);
}

/// A plan to create a key file keeps the key and writes its digits and a line end,
/// which read back as the key.
pub proof fn created_file_holds_the_key(plan: SigningKeyPlan, key: Seq<u8>)
    requires
        key.len() == 32,
        creates(plan, key),
    ensures
        plan matches SigningKeyPlan::Create { key: kept, file_text } && kept@ == key && file_text@
            == hex_text(key) + "\n"@ && key_of(trimmed(file_text@)) == Ok::<Seq<u8>, KeyError>(key),
{
    key_file_reads_back(key);
}

/// The messages on a key file say what is wrong with it.
pub proof fn key_errors_are_explained(e: HexError, n: usize)
    ensures
        key_error_message(KeyError::NotHex(e)) == "Notary key file is not valid hex"@,
        key_error_message(KeyError::WrongLength(n))
            == "Notary key must be exactly 32 bytes (64 hex chars), got "@ + decimal_text(n as nat)
            + " bytes"@,
{
}

} // verus!
