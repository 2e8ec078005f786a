//! Hexadecimal text.
use vstd::prelude::*;
use vstd::string::*;

verus! {

/// The small hexadecimal digit of a value below sixteen.
pub open spec fn hex_digit(value: int) -> char {
    if value < 10 {
        (48 + value) as char
    } else {
        (87 + value) as char
    }
}

/// Two small hexadecimal digits for each byte, the high half first.
pub open spec fn hex_text(bytes: Seq<u8>) -> Seq<char> {
    Seq::new(
        2 * bytes.len(),
        |i: int|
            if i % 2 == 0 {
                hex_digit(bytes[i / 2] as int / 16)
            } else {
                hex_digit(bytes[i / 2] as int % 16)
            },
    )
}

/// The value of a hexadecimal digit, in either case.
pub open spec fn hex_value(digit: u8) -> Option<int> {
    if 48 <= digit <= 57 {
        Some(digit - 48)
    } else if 65 <= digit <= 70 {
        Some(digit - 55)
    } else if 97 <= digit <= 102 {
        Some(digit - 87)
    } else {
        None
    }
}

/// Why a text is not hexadecimal.
#[derive(Clone, Copy, Debug)]
pub enum HexError {
    /// The number of digits is odd.
    OddLength,
    /// The byte at `index`, taken as the character `c`, is no digit.
    InvalidHexCharacter { c: char, index: usize },
    /// The text does not have the length that was asked for.
    InvalidStringLength,
}

/// The first among the first `n` bytes that is no hexadecimal digit.
pub open spec fn first_non_digit(digits: Seq<u8>, n: nat) -> Option<int>
    decreases n,
{
    if n == 0 {
        None
    } else if first_non_digit(digits, (n - 1) as nat) is Some {
        first_non_digit(digits, (n - 1) as nat)
    } else if hex_value(digits[n - 1]) is None {
        Some(n - 1)
    } else {
        None
    }
}

/// The bytes that a hexadecimal text stands for, or what is wrong with it: an
/// odd length before anything else, then the first byte that is no digit.
pub open spec fn hex_decoded(digits: Seq<u8>) -> Result<Seq<u8>, HexError> {
    if digits.len() % 2 != 0 {
        Err(HexError::OddLength)
    } else {
        match first_non_digit(digits, digits.len()) {
            Some(i) => Err(
                HexError::InvalidHexCharacter { c: digits[i] as char, index: i as usize },
            ),
            None => Ok(
                Seq::new(
                    digits.len() / 2,
                    |i: int|
                        (16 * hex_value(digits[2 * i])->0 + hex_value(digits[2 * i + 1])->0) as u8,
                ),
            ),
        }
    }
}

/// Wraps `hex::encode`: two small digits for each byte, the high half first.
#[verifier::external_body]
pub(crate) fn hex_encode(bytes: &[u8]) -> (text: String)
    ensures
        text@ == hex_text(bytes@),
{
    hex::encode(bytes)
}

/// Wraps `hex::decode`: each pair of digits gives a byte, the high half first;
/// an odd length is reported before a byte that is no digit, and of those the
/// first is reported.
#[verifier::external_body]
pub(crate) fn hex_decode(digits: &[u8]) -> (bytes: Result<Vec<u8>, HexError>)
    ensures
        match bytes {
            Ok(b) => hex_decoded(digits@) == Ok::<Seq<u8>, HexError>(b@),
            Err(e) => hex_decoded(digits@) == Err::<Seq<u8>, HexError>(e),
        },
{
    hex::decode(digits).map_err(
        |e| match e {
            hex::FromHexError::OddLength => HexError::OddLength,
            hex::FromHexError::InvalidHexCharacter { c, index } => HexError::InvalidHexCharacter {
                c,
                index,
            },
            hex::FromHexError::InvalidStringLength => HexError::InvalidStringLength,
        },
    )
}

/// The bytes of a hexadecimal text: its characters are ASCII.
pub proof fn hex_text_bytes(bytes: Seq<u8>)
    ensures
        vstd::utf8::encode_utf8(hex_text(bytes)).len() == 2 * bytes.len(),
        forall|i: int|
            0 <= i < 2 * bytes.len() ==> #[trigger] vstd::utf8::encode_utf8(hex_text(bytes))[i]
                == hex_text(bytes)[i] as u8,
{
    let text = hex_text(bytes);
    assert(vstd::utf8::is_ascii_chars(text));
    vstd::utf8::is_ascii_chars_encode_utf8(text);
}

/// A byte that encodes a digit has that digit's value.
proof fn digit_has_its_value(value: int)
    requires
        0 <= value < 16,
    ensures
        hex_value(hex_digit(value) as u8) == Some(value),
{
}

/// Decoding the hexadecimal text of a byte sequence gives it back.
pub proof fn encoding_decodes(bytes: Seq<u8>)
    ensures
        hex_decoded(vstd::utf8::encode_utf8(hex_text(bytes))) == Ok::<Seq<u8>, HexError>(bytes),
{
    let digits = vstd::utf8::encode_utf8(hex_text(bytes));
    hex_text_bytes(bytes);
    assert forall|i: int| 0 <= i < digits.len() implies hex_value(#[trigger] digits[i]) == Some(
        if i % 2 == 0 {
            bytes[i / 2] as int / 16
        } else {
            bytes[i / 2] as int % 16
        },
    ) by {
        if i % 2 == 0 {
            digit_has_its_value(bytes[i / 2] as int / 16);
        } else {
            digit_has_its_value(bytes[i / 2] as int % 16);
        }
    }
    digits_have_no_error(digits, digits.len());
    let decoded = Seq::new(
        digits.len() / 2,
        |i: int| (16 * hex_value(digits[2 * i])->0 + hex_value(digits[2 * i + 1])->0) as u8,
    );
    assert forall|i: int| 0 <= i < bytes.len() implies decoded[i] == bytes[i] by {
        assert(hex_value(digits[2 * i]) == Some(bytes[(2 * i) / 2] as int / 16));
        assert(hex_value(digits[2 * i + 1]) == Some(bytes[(2 * i + 1) / 2] as int % 16));
        assert((2 * i) / 2 == i && (2 * i + 1) / 2 == i);
    }
    assert(decoded =~= bytes);
}

/// A sequence of digits has no first non-digit.
proof fn digits_have_no_error(digits: Seq<u8>, n: nat)
    requires
        n <= digits.len(),
        forall|i: int| 0 <= i < digits.len() ==> hex_value(#[trigger] digits[i]) is Some,
    ensures
        first_non_digit(digits, n) is None,
    decreases n,
{
    if n > 0 {
        digits_have_no_error(digits, (n - 1) as nat);
    }
}

} // verus!
