//! Hexadecimal text for byte strings.

use vstd::prelude::*;
use vstd::string::*;


verus! {

/// Why a text is not the hexadecimal form of a byte string.
#[derive(Clone, Copy, Debug, PartialEq, Eq, Structural)]
pub enum HexError {
    /// A byte that is not one of `0...9`, `a...f` or `A...F`.
    InvalidHexCharacter {
        /// The byte, as the character with that code.
        c: char,
        /// Where it stands, counted after any prefix.
        index: usize,
    },
    /// An odd number of digits.
    OddLength,
    /// Not the number of digits that the target holds.
    InvalidStringLength,
}

/// Whether a byte is a hexadecimal digit of either case.
pub open spec fn is_hex_digit(b: u8) -> bool {
    48 <= b <= 57 || 65 <= b <= 70 || 97 <= b <= 102
}

/// The value of a hexadecimal digit.
pub open spec fn hex_value(b: u8) -> int {
    if b <= 57 {
        b - 48
    } else if b <= 70 {
        b - 55
    } else {
        b - 87
    }
}

/// Two lowercase digits per byte, the high half first.
pub open spec fn hex_chars(bytes: Seq<u8>) -> Seq<char> {
    Seq::new(
        2 * bytes.len(),
        |i: int| crate::text::digit(if i % 2 == 0 { bytes[i / 2] / 16 } else { bytes[i / 2] % 16 } as int),
    )
}

/// The same digits as ASCII bytes.
pub open spec fn hex_bytes(bytes: Seq<u8>) -> Seq<u8> {
    hex_chars(bytes).map_values(|c: char| c as u8)
}

/// `input` without a leading `0x` or `0X`.
pub open spec fn digits_of(input: Seq<u8>) -> Seq<u8> {
    if input.len() >= 2 && input[0] == 48 && (input[1] == 120 || input[1] == 88) {
        input.skip(2)
    } else {
        input
    }
}

/// The first position at or after `from` that holds no hexadecimal digit, or
/// the length if there is none.
pub open spec fn first_non_digit(digits: Seq<u8>, from: int) -> int
    decreases digits.len() - from,
{
    if from < digits.len() && is_hex_digit(digits[from]) {
        first_non_digit(digits, from + 1)
    } else {
        from
    }
}

/// The bytes that pairs of digits stand for.
pub open spec fn digit_pairs(digits: Seq<u8>) -> Seq<u8> {
    Seq::new(
        digits.len() / 2,
        |i: int| (16 * hex_value(digits[2 * i]) + hex_value(digits[2 * i + 1])) as u8,
    )
}

/// Decoding digits of which there is an even number.
pub open spec fn decoded_pairs(digits: Seq<u8>) -> Result<Seq<u8>, HexError> {
    let bad = first_non_digit(digits, 0);
    if bad < digits.len() {
        Err(HexError::InvalidHexCharacter { c: digits[bad] as char, index: bad as usize })
    } else {
        Ok(digit_pairs(digits))
    }
}

/// Decoding a text of any length.
pub open spec fn decoded(input: Seq<u8>) -> Result<Seq<u8>, HexError> {
    if input.len() % 2 != 0 {
        Err(HexError::OddLength)
    } else {
        decoded_pairs(digits_of(input))
    }
}

/// Decoding a text that must hold exactly `len` bytes.
pub open spec fn decoded_exactly(input: Seq<u8>, len: nat) -> Result<Seq<u8>, HexError> {
    if input.len() % 2 != 0 {
        Err(HexError::OddLength)
    } else if digits_of(input).len() / 2 != len {
        Err(HexError::InvalidStringLength)
    } else {
        decoded_pairs(digits_of(input))
    }
}

/// A digit written out is the character for its value, and reads back.
proof fn digit_reads_back(d: int)
    requires
        0 <= d < 16,
    ensures
        '\0' <= crate::text::digit(d) <= '\u{7f}',
        is_hex_digit(crate::text::digit(d) as u8),
        hex_value(crate::text::digit(d) as u8) == d,
        crate::text::digit(d) != 'x',
        crate::text::digit(d) as u8 != 120,
        crate::text::digit(d) as u8 != 88,
{
}

/// Where every byte is a digit, none is reported.
proof fn no_bad_digit(digits: Seq<u8>, from: int)
    requires
        0 <= from <= digits.len(),
        forall|i: int| 0 <= i < digits.len() ==> is_hex_digit(#[trigger] digits[i]),
    ensures
        first_non_digit(digits, from) == digits.len(),
    decreases digits.len() - from,
{
    if from < digits.len() {
        no_bad_digit(digits, from + 1);
    }
}

/// The digits written for a byte string are ASCII hexadecimal digits, carry no
/// prefix, and stand for that byte string.
pub proof fn hex_chars_decode(bytes: Seq<u8>)
    ensures
        vstd::utf8::encode_utf8(hex_chars(bytes)) == hex_bytes(bytes),
        digits_of(hex_bytes(bytes)) == hex_bytes(bytes),
        decoded_pairs(hex_bytes(bytes)) == Ok::<Seq<u8>, HexError>(bytes),
        decoded(vstd::utf8::encode_utf8(hex_chars(bytes))) == Ok::<Seq<u8>, HexError>(bytes),
{
    let chars = hex_chars(bytes);
    let coded = hex_bytes(bytes);
    assert forall|i: int| 0 <= i < chars.len() implies {
        &&& '\0' <= #[trigger] chars[i] <= '\u{7f}'
        &&& is_hex_digit(coded[i])
        &&& coded[i] != 120
        &&& coded[i] != 88
    } by {
        digit_reads_back(if i % 2 == 0 { bytes[i / 2] / 16 } else { bytes[i / 2] % 16 } as int);
    }
    vstd::utf8::is_ascii_chars_encode_utf8(chars);
    assert(vstd::utf8::encode_utf8(chars) =~= coded);
    assert forall|i: int| 0 <= i < coded.len() implies is_hex_digit(#[trigger] coded[i]) by {
        assert('\0' <= chars[i]);
    }
    if coded.len() >= 2 {
        assert('\0' <= chars[1]);
    }
    no_bad_digit(coded, 0);
    assert forall|i: int| 0 <= i < bytes.len() implies #[trigger] digit_pairs(coded)[i] == bytes[i] by {
        let b = bytes[i];
        assert((2 * i) / 2 == i && (2 * i) % 2 == 0);
        assert((2 * i + 1) / 2 == i && (2 * i + 1) % 2 == 1);
        digit_reads_back((b / 16) as int);
        digit_reads_back((b % 16) as int);
        assert(16 * (b / 16) + b % 16 == b);
    }
    assert(digit_pairs(coded) =~= bytes);
}

/// Calls `const_hex::decode`: an optional `0x` or `0X` prefix is dropped, an
/// odd number of bytes is refused, the first byte that is no digit is reported
/// with its position, and otherwise each pair of digits is one byte.
#[verifier::external_body]
pub(crate) fn decode(input: &str) -> (r: Result<Vec<u8>, HexError>)
    ensures
        (match r {
            Ok(bytes) => Ok(bytes@),
            Err(e) => Err(e),
        }) == decoded(vstd::utf8::encode_utf8(input@)),
{
    match const_hex::decode(input) {
        Ok(bytes) => Ok(bytes),
        Err(const_hex::FromHexError::InvalidHexCharacter { c, index }) => {
            Err(HexError::InvalidHexCharacter { c, index })
        },
        Err(const_hex::FromHexError::OddLength) => Err(HexError::OddLength),
        Err(const_hex::FromHexError::InvalidStringLength) => Err(HexError::InvalidStringLength),
    }
}

/// Calls `const_hex::decode_to_slice` on a 32-byte array: as `decode`, and any
/// other number of digit pairs than 32 is refused before the digits are looked
/// at.
#[verifier::external_body]
pub(crate) fn decode_32(input: &str) -> (r: Result<[u8; 32], HexError>)
    ensures
        (match r {
            Ok(bytes) => Ok(bytes@),
            Err(e) => Err(e),
        }) == decoded_exactly(vstd::utf8::encode_utf8(input@), 32),
{
    let mut out = [0u8; 32];
    match const_hex::decode_to_slice(input, &mut out) {
        Ok(()) => Ok(out),
        Err(const_hex::FromHexError::InvalidHexCharacter { c, index }) => {
            Err(HexError::InvalidHexCharacter { c, index })
        },
        Err(const_hex::FromHexError::OddLength) => Err(HexError::OddLength),
        Err(const_hex::FromHexError::InvalidStringLength) => Err(HexError::InvalidStringLength),
    }
}

/// Calls `const_hex::encode` on a 32-byte array: two lowercase digits per byte.
#[verifier::external_body]
pub(crate) fn encode_32(bytes: &[u8; 32]) -> (s: String)
    ensures
        s@ == hex_chars(bytes@),
{
    const_hex::encode(bytes)
}

/// The text that `const_hex::FromHexError` has for an error.
pub uninterp spec fn hex_error_text(e: HexError) -> Seq<char>;

/// Calls `to_string` on the `const_hex::FromHexError` with the same variant and
/// fields. How a bad character is quoted in the text is left unsaid.
#[verifier::external_body]
fn describe(e: HexError) -> (s: String)
    ensures
        s@ == hex_error_text(e),
        e is OddLength ==> s@ == "odd number of digits"@,
        e is InvalidStringLength ==> s@ == "invalid string length"@,
{
    match e {
        HexError::InvalidHexCharacter { c, index } => {
            const_hex::FromHexError::InvalidHexCharacter { c, index }.to_string()
        },
        HexError::OddLength => const_hex::FromHexError::OddLength.to_string(),
        HexError::InvalidStringLength => const_hex::FromHexError::InvalidStringLength.to_string(),
    }
}

impl HexError {
    /// The message people read.
    pub fn message(&self) -> (s: String)
        ensures
            s@ == hex_error_text(*self),
            *self is OddLength ==> s@ == "odd number of digits"@,
            *self is InvalidStringLength ==> s@ == "invalid string length"@,
    {
        describe(*self)
    }
}

/// Bytes are written as two small digits each, the value of the first being the high
/// half.
pub proof fn bytes_are_written_as_two_small_digits(bytes: Seq<u8>, i: int)
    requires
        0 <= i < bytes.len(),
    ensures
        hex_chars(bytes).len() == 2 * bytes.len(),
        crate::text::is_digit(hex_chars(bytes)[2 * i], 16),
        crate::text::is_digit(hex_chars(bytes)[2 * i + 1], 16),
        16 * crate::text::digit_value(hex_chars(bytes)[2 * i]) + crate::text::digit_value(
            hex_chars(bytes)[2 * i + 1],
        ) == bytes[i],
        hex_bytes(bytes)[2 * i] == hex_chars(bytes)[2 * i] as u8,
        hex_bytes(bytes)[2 * i + 1] == hex_chars(bytes)[2 * i + 1] as u8,
{
    let b = bytes[i];
    assert((2 * i) / 2 == i && (2 * i) % 2 == 0);
    assert((2 * i + 1) / 2 == i && (2 * i + 1) % 2 == 1);
    assert(16 * (b / 16) + b % 16 == b);
}

} // verus!
