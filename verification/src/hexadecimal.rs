//! Bytes written as hexadecimal digits.

use vstd::prelude::*;
use vstd::string::StringExecFns;

verus! {

/// Why a text is not the hexadecimal form of bytes.
#[derive(Clone, Copy, Debug, PartialEq, Eq, Structural)]
pub enum HexError {
    /// The byte at `index` is no hexadecimal digit; `c` is the character of that number.
    InvalidHexCharacter { c: char, index: usize },
    /// There is an odd number of digits.
    OddLength,
    /// The number of digits does not fit the place they are written to.
    InvalidStringLength,
}

/// The lower-case digit for a number below sixteen.
pub open spec fn hex_digit(n: int) -> char {
    if n < 10 {
        ('0' as int + n) as char
    } else {
        ('a' as int + n - 10) as char
    }
}

/// Two lower-case digits for each byte.
pub open spec fn hex_text(bytes: Seq<u8>) -> Seq<char> {
    Seq::new(
        2 * bytes.len(),
        |i: int|
            if i % 2 == 0 {
                hex_digit(bytes[i / 2] as int / 16)
            } else {
                hex_digit(bytes[i / 2] as int % 16)
            },
    )
}

/// The number that an ASCII digit stands for, in either case.
pub open spec fn hex_value(b: u8) -> Option<u8> {
    if 0x30 <= b <= 0x39 {
        Some((b - 0x30) as u8)
    } else if 0x41 <= b <= 0x46 {
        Some((b - 0x41 + 10) as u8)
    } else if 0x61 <= b <= 0x66 {
        Some((b - 0x61 + 10) as u8)
    } else {
        None
    }
}

/// The bytes that a run of ASCII digits writes, two digits for each. Nothing where the digits
/// do not pair up or one of them is no digit.
pub open spec fn hex_decoded(digits: Seq<u8>) -> Option<Seq<u8>> {
    if digits.len() % 2 == 0 && (forall|i: int|
        0 <= i < digits.len() ==> hex_value(#[trigger] digits[i]) is Some) {
        Some(
            Seq::new(
                digits.len() / 2,
                |i: int| (hex_value(digits[2 * i])->0 * 16 + hex_value(digits[2 * i + 1])->0) as u8,
            ),
        )
    } else {
        None
    }
}

/// What an error tells of the digits: an odd number is found first, then the first byte that
/// is no digit.
pub open spec fn explains(e: HexError, digits: Seq<u8>) -> bool {
    match e {
        HexError::OddLength => digits.len() % 2 == 1,
        HexError::InvalidHexCharacter { c, index } => {
            &&& digits.len() % 2 == 0
            &&& index < digits.len()
            &&& hex_value(digits[index as int]) is None
            &&& c as u32 == digits[index as int]
            &&& forall|i: int| 0 <= i < index ==> hex_value(#[trigger] digits[i]) is Some
        },
        HexError::InvalidStringLength => false,
    }
}

/// `hex::decode` into a vector: the bytes that pairs of digits write, upper and lower case
/// alike; else the error for an odd number of digits, or, where the number is even, the
/// error for the first byte that is no digit.
#[verifier::external_body]
pub(crate) fn decode(digits: &[u8]) -> (out: Result<Vec<u8>, HexError>)
    ensures
        match out {
            Ok(bytes) => hex_decoded(digits@) == Some(bytes@),
            Err(e) => explains(e, digits@),
        },
{
    hex::decode(digits).map_err(
        |e| match e {
            hex::FromHexError::InvalidHexCharacter { c, index } => HexError::InvalidHexCharacter {
                c,
                index,
            },
            hex::FromHexError::OddLength => HexError::OddLength,
            hex::FromHexError::InvalidStringLength => HexError::InvalidStringLength,
        },
    )
}

/// The digit for a number below sixteen, as a text.
fn digit_text(n: u8) -> (digit: &'static str)
    requires
        n < 16,
    ensures
        digit@ == seq![hex_digit(n as int)],
{
    proof {
        reveal_strlit("0");
        reveal_strlit("1");
        reveal_strlit("2");
        reveal_strlit("3");
        reveal_strlit("4");
        reveal_strlit("5");
        reveal_strlit("6");
        reveal_strlit("7");
        reveal_strlit("8");
        reveal_strlit("9");
        reveal_strlit("a");
        reveal_strlit("b");
        reveal_strlit("c");
        reveal_strlit("d");
        reveal_strlit("e");
        reveal_strlit("f");
    }
    let digit = match n {
        0 => "0",
        1 => "1",
        2 => "2",
        3 => "3",
        4 => "4",
        5 => "5",
        6 => "6",
        7 => "7",
        8 => "8",
        9 => "9",
        10 => "a",
        11 => "b",
        12 => "c",
        13 => "d",
        14 => "e",
        _ => "f",
    };
    assert(digit@.len() == 1 && digit@[0] == hex_digit(n as int));
    assert(digit@ =~= seq![hex_digit(n as int)]);
    digit
}

/// Two lower-case digits for each byte.
pub fn encode(bytes: &[u8]) -> (text: String)
    ensures
        text@ == hex_text(bytes@),
{
    let mut text = String::new();
    let mut i: usize = 0;
    while i < bytes.len()
        invariant
            i <= bytes@.len(),
            text@ == hex_text(bytes@.take(i as int)),
        decreases bytes@.len() - i,
    {
        let b = bytes[i];
        text.append(digit_text(b / 16));
        text.append(digit_text(b % 16));
        assert(text@ =~= hex_text(bytes@.take(i + 1)));
        i += 1;
    }
    assert(bytes@.take(i as int) == bytes@);
    text
}

/// A digit is an ASCII character that stands for its number.
proof fn lemma_digit_value(n: int)
    requires
        0 <= n < 16,
    ensures
        (hex_digit(n) as u32) < 128,
        hex_value(hex_digit(n) as u8) == Some(n as u8),
{
}

/// The two digits of a byte.
proof fn lemma_byte_digits(bytes: Seq<u8>, i: int)
    requires
        0 <= i < bytes.len(),
    ensures
        hex_text(bytes)[2 * i] == hex_digit(bytes[i] as int / 16),
        hex_text(bytes)[2 * i + 1] == hex_digit(bytes[i] as int % 16),
{
}

/// The text writes the bytes: two hexadecimal digits for each, every digit in either case.
pub open spec fn writes(text: Seq<char>, bytes: Seq<u8>) -> bool {
    &&& text.len() == 2 * bytes.len()
    &&& vstd::utf8::is_ascii_chars(text)
    &&& forall|i: int|
        0 <= i < bytes.len() ==> {
            &&& hex_value(text[2 * i] as u8) == Some((#[trigger] bytes[i] / 16) as u8)
            &&& hex_value(text[2 * i + 1] as u8) == Some((bytes[i] % 16) as u8)
        }
}

/// The digits that are written for bytes write these bytes.
pub proof fn law_encoded_writes(bytes: Seq<u8>)
    ensures
        writes(hex_text(bytes), bytes),
{
    let text = hex_text(bytes);
    assert forall|i: int| 0 <= i < text.len() implies (#[trigger] text[i] as u32) < 128 by {
        lemma_digit_value(bytes[i / 2] as int / 16);
        lemma_digit_value(bytes[i / 2] as int % 16);
    }
    assert forall|i: int| 0 <= i < bytes.len() implies {
        &&& hex_value(text[2 * i] as u8) == Some((#[trigger] bytes[i] / 16) as u8)
        &&& hex_value(text[2 * i + 1] as u8) == Some((bytes[i] % 16) as u8)
    } by {
        lemma_byte_digits(bytes, i);
        lemma_digit_value(bytes[i] as int / 16);
        lemma_digit_value(bytes[i] as int % 16);
    }
}

/// Each character of a text that writes bytes is a digit.
pub proof fn lemma_digits(text: Seq<char>, bytes: Seq<u8>, i: int)
    requires
        writes(text, bytes),
        0 <= i < text.len(),
    ensures
        hex_value(text[i] as u8) is Some,
        '\0' <= text[i] <= '\u{7f}',
{
    let b = bytes[i / 2];
    assert(i == 2 * (i / 2) || i == 2 * (i / 2) + 1);
}

/// Decoding gives the bytes that a text writes, whichever case its digits are in.
pub proof fn law_hex_read_back(text: Seq<char>, bytes: Seq<u8>)
    requires
        writes(text, bytes),
    ensures
        hex_decoded(vstd::utf8::encode_utf8(text)) == Some(bytes),
{
    let digits = vstd::utf8::encode_utf8(text);
    vstd::utf8::is_ascii_chars_encode_utf8(text);
    assert forall|i: int| 0 <= i < digits.len() implies hex_value(#[trigger] digits[i]) is Some by {
        assert(digits[i] == text[i] as u8);
        lemma_digits(text, bytes, i);
    }
    let decoded = hex_decoded(digits)->0;
    assert forall|i: int| 0 <= i < bytes.len() implies #[trigger] decoded[i] == bytes[i] by {
        assert(digits[2 * i] == text[2 * i] as u8);
        assert(digits[2 * i + 1] == text[2 * i + 1] as u8);
        assert(hex_value(text[2 * i] as u8) == Some((bytes[i] / 16) as u8));
    }
    assert(decoded =~= bytes);
}

/// Decoding undoes encoding.
pub proof fn law_hex_round_trip(bytes: Seq<u8>)
    ensures
        hex_decoded(vstd::utf8::encode_utf8(hex_text(bytes))) == Some(bytes),
{
    law_encoded_writes(bytes);
    law_hex_read_back(hex_text(bytes), bytes);
}

/// Bytes are written with two digits each, the higher half first: every digit is one of 0 to 9 or
/// of a to f, and stands for its half of the byte.
pub proof fn law_hex_digits(bytes: Seq<u8>, i: int)
    ensures
        hex_text(bytes).len() == 2 * bytes.len(),
        0 <= i < bytes.len() ==> ({
            let high = hex_text(bytes)[2 * i];
            let low = hex_text(bytes)[2 * i + 1];
            &&& '0' <= high <= '9' || 'a' <= high <= 'f'
            &&& '0' <= low <= '9' || 'a' <= low <= 'f'
            &&& bytes[i] == 16 * (high as u32 - if high <= '9' {
                48int
            } else {
                87int
            }) + (low as u32 - if low <= '9' {
                48int
            } else {
                87int
            })
        }),
{
    if 0 <= i < bytes.len() {
        lemma_byte_digits(bytes, i);
    }
}

/// The digits are 0 to 9 and, in either case, a to f, which stand for ten and up; nothing else is
/// one.
pub proof fn law_hex_value(b: u8)
    ensures
        '0' as u8 <= b <= '9' as u8 ==> hex_value(b) == Some((b - '0' as u8) as u8),
        'a' as u8 <= b <= 'f' as u8 ==> hex_value(b) == Some((b - 'a' as u8 + 10) as u8),
        'A' as u8 <= b <= 'F' as u8 ==> hex_value(b) == Some((b - 'A' as u8 + 10) as u8),
        hex_value(b) is Some ==> '0' as u8 <= b <= '9' as u8 || 'a' as u8 <= b <= 'f' as u8
            || 'A' as u8 <= b <= 'F' as u8,
{
}

/// No digits write no bytes. Two more digits write one more byte, the first its higher half; and
/// they write none where either is no digit or what stands in front writes none. A digit alone
/// writes nothing.
pub proof fn law_hex_decoded(digits: Seq<u8>, high: u8, low: u8)
    ensures
        hex_decoded(Seq::empty()) == Some(Seq::<u8>::empty()),
        hex_decoded(seq![high]) is None,
        hex_decoded(digits) is Some && hex_value(high) is Some && hex_value(low) is Some
            ==> hex_decoded(digits + seq![high, low]) == Some(
            hex_decoded(digits)->0.push((16 * hex_value(high)->0 + hex_value(low)->0) as u8),
        ),
        hex_decoded(digits) is None || hex_value(high) is None || hex_value(low) is None
            ==> hex_decoded(digits + seq![high, low]) is None,
{
    assert(hex_decoded(Seq::empty())->0 =~= Seq::<u8>::empty());
    let more = digits + seq![high, low];
    let n = digits.len() as int;
    assert(more[n] == high && more[n + 1] == low);
    if hex_decoded(more) is Some {
        assert(hex_value(more[n]) is Some);
        assert(hex_value(more[n + 1]) is Some);
        assert forall|i: int| 0 <= i < n implies hex_value(#[trigger] digits[i]) is Some by {
            assert(more[i] == digits[i]);
        }
    }
    if hex_decoded(digits) is Some && hex_value(high) is Some && hex_value(low) is Some {
        assert forall|i: int| 0 <= i < more.len() implies hex_value(#[trigger] more[i]) is Some by {
            if i < n {
                assert(more[i] == digits[i]);
            }
        }
        let last = (16 * hex_value(high)->0 + hex_value(low)->0) as u8;
        let read = hex_decoded(more)->0;
        assert forall|i: int| 0 <= i < read.len() implies read[i] == hex_decoded(digits)->0.push(
            last,
        )[i] by {
            if i < n / 2 {
                assert(more[2 * i] == digits[2 * i]);
                assert(more[2 * i + 1] == digits[2 * i + 1]);
            } else {
                assert(2 * i == n);
            }
        }
        assert(read =~= hex_decoded(digits)->0.push(last));
    }
}

/// Why digits write nothing: there is an odd number of them; else one of them is no digit, and it
/// is the first such one that is told, with its place.
pub proof fn law_hex_faults(digits: Seq<u8>, c: char, index: usize)
    ensures
        explains(HexError::OddLength, digits) <==> digits.len() % 2 == 1,
        explains(HexError::InvalidHexCharacter { c, index }, digits) ==> digits.len() % 2 == 0
            && index < digits.len() && hex_value(digits[index as int]) is None && c as u32
            == digits[index as int] && hex_decoded(digits) is None,
        explains(HexError::InvalidHexCharacter { c, index }, digits) ==> forall|i: int|
            0 <= i < index ==> hex_value(#[trigger] digits[i]) is Some,
        !explains(HexError::InvalidStringLength, digits),
{
}

} // verus!
