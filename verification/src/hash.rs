//! Hashes, and bytes in hexadecimal.

use vstd::prelude::*;
use vstd::utf8::{encode_utf8, is_ascii_chars, is_ascii_chars_encode_utf8};

use crate::number::{
    decimal, decimal_text, digit_char, digit_value, hex_digits, lemma_digit_reads_back,
};
use crate::quote::{debug_char, quoted_char};

verus! {

/// The SHA-256 of some bytes.
pub uninterp spec fn sha256_of(data: Seq<u8>) -> Seq<u8>;

/// The SHA-256 of `data`, by `sha2::Sha256::digest`. The digest is a function of the bytes
/// alone; the algorithm is not spelled out.
#[verifier::external_body]
pub(crate) fn sha256(data: &[u8]) -> (r: [u8; 32])
    ensures
        r@ == sha256_of(data@),
{
    <sha2::Sha256 as sha2::Digest>::digest(data).into()
}

/// Bytes in hexadecimal: two lower-case digits for each.
pub open spec fn hex_of(data: Seq<u8>) -> Seq<char>
    decreases data.len(),
{
    if data.len() == 0 {
        Seq::empty()
    } else {
        hex_of(data.drop_last()) + hex_digits(data.last() as nat, 2)
    }
}

/// `data` in hexadecimal, by `hex::encode`: two lower-case digits for each byte, the high one
/// first. The text is twice as long as the bytes, which has to fit in memory.
#[verifier::external_body]
pub(crate) fn hex_encode(data: &[u8]) -> (r: String)
    requires
        2 * data@.len() <= isize::MAX,
    ensures
        r@ == hex_of(data@),
{
    hex::encode(data)
}

/// Why a text is no hexadecimal.
#[derive(Clone, Copy, Debug, PartialEq, Eq, Structural)]
pub enum HexFault {
    /// A byte is no digit; the byte as a character, and where it stands.
    InvalidCharacter(char, usize),
    /// The number of digits is odd.
    OddLength,
    /// The number of digits is not the one asked for.
    InvalidLength,
}

/// What a byte stands for as a hexadecimal digit, in either case.
pub open spec fn nibble(b: u8) -> Option<nat> {
    digit_value(b as char, 16)
}

/// Where the first byte that is no digit stands.
pub open spec fn first_non_digit(s: Seq<u8>) -> Option<int>
    decreases s.len(),
{
    if s.len() == 0 {
        None
    } else if first_non_digit(s.drop_last()) is Some {
        first_non_digit(s.drop_last())
    } else if nibble(s.last()) is None {
        Some(s.len() - 1)
    } else {
        None
    }
}

/// The bytes that a run of digits stands for, or why it stands for none.
pub open spec fn hex_outcome(s: Seq<u8>) -> Result<Seq<u8>, HexFault> {
    if s.len() % 2 != 0 {
        Err(HexFault::OddLength)
    } else {
        match first_non_digit(s) {
            Some(i) => Err(HexFault::InvalidCharacter(s[i] as char, i as usize)),
            None => Ok(
                Seq::new(
                    s.len() / 2,
                    |k: int| (16 * nibble(s[2 * k])->Some_0 + nibble(s[2 * k + 1])->Some_0) as u8,
                ),
            ),
        }
    }
}

/// The outcome of reading digits, with the bytes taken as a sequence.
pub open spec fn bytes_shown(r: Result<Vec<u8>, HexFault>) -> Result<Seq<u8>, HexFault> {
    match r {
        Ok(bytes) => Ok(bytes@),
        Err(fault) => Err(fault),
    }
}

/// The bytes that `s` stands for, by `hex::decode`: an odd number of bytes is a fault, then the
/// first byte of the text's UTF-8 form that is no digit, in either case; else each two digits
/// make a byte, the high one first.
#[verifier::external_body]
pub(crate) fn hex_decode(s: &str) -> (r: Result<Vec<u8>, HexFault>)
    ensures
        bytes_shown(r) == hex_outcome(encode_utf8(s@)),
{
    hex::decode(s).map_err(|e| match e {
        hex::FromHexError::InvalidHexCharacter { c, index } => HexFault::InvalidCharacter(c, index),
        hex::FromHexError::OddLength => HexFault::OddLength,
        hex::FromHexError::InvalidStringLength => HexFault::InvalidLength,
    })
}

/// What a fault reads as.
pub open spec fn hex_fault_text(fault: HexFault) -> Seq<char> {
    match fault {
        HexFault::InvalidCharacter(c, index) => "Invalid character "@ + debug_char(c)
            + " at position "@ + decimal(index as nat),
        HexFault::OddLength => "Odd number of digits"@,
        HexFault::InvalidLength => "Invalid string length"@,
    }
}

impl HexFault {
    /// What the fault reads as.
    pub fn text(&self) -> (r: String)
        ensures
            r@ == hex_fault_text(*self),
    {
        match self {
            HexFault::InvalidCharacter(c, index) => {
                let mut r: String = "Invalid character ".to_owned();
                r.append(quoted_char(*c).as_str());
                r.append(" at position ");
                r.append(decimal_text(*index as u64).as_str());
                r
            },
            HexFault::OddLength => "Odd number of digits".to_owned(),
            HexFault::InvalidLength => "Invalid string length".to_owned(),
        }
    }
}

/// Hexadecimal text is twice as long as its bytes, holds digits alone, and its digits are those
/// of the bytes.
pub proof fn lemma_hex_digits_of(data: Seq<u8>)
    ensures
        hex_of(data).len() == 2 * data.len(),
        forall|k: int|
            0 <= k < data.len() ==> hex_of(data)[2 * k] == digit_char((data[k] / 16) as nat)
                && hex_of(data)[2 * k + 1] == digit_char((#[trigger] data[k] % 16) as nat),
        forall|i: int|
            0 <= i < hex_of(data).len() ==> digit_value(#[trigger] hex_of(data)[i], 16) is Some
                && (hex_of(data)[i] as u32) < 128,
    decreases data.len(),
{
    if data.len() > 0 {
        let front = data.drop_last();
        let b = data.last();
        let n = b as nat;
        lemma_hex_digits_of(front);
        lemma_digit_reads_back(n / 16, 16);
        lemma_digit_reads_back(n % 16, 16);
        assert(hex_digits(n / 16 / 16, 0) =~= Seq::empty());
        assert(hex_digits(n / 16, 1) =~= seq![digit_char(n / 16)]);
        assert(hex_digits(n, 2) =~= seq![digit_char(n / 16), digit_char(n % 16)]);
        let s = hex_of(data);
        assert(s =~= hex_of(front) + seq![digit_char(n / 16), digit_char(n % 16)]);
        assert forall|k: int| 0 <= k < data.len() implies s[2 * k] == digit_char(
            (data[k] / 16) as nat,
        ) && s[2 * k + 1] == digit_char((#[trigger] data[k] % 16) as nat) by {
            if k < front.len() {
                assert(front[k] == data[k]);
            }
        }
        assert forall|i: int| 0 <= i < s.len() implies digit_value(#[trigger] s[i], 16) is Some
            && (s[i] as u32) < 128 by {
            if i < 2 * front.len() {
                assert(s[i] == hex_of(front)[i]);
            }
        }
    }
}

/// Bytes in hexadecimal read back as they were.
pub proof fn law_hex_reads_back(data: Seq<u8>)
    ensures
        hex_outcome(encode_utf8(hex_of(data))) == Ok::<Seq<u8>, HexFault>(data),
{
    let text = hex_of(data);
    let s = encode_utf8(text);
    lemma_hex_digits_of(data);
    assert(is_ascii_chars(text)) by {
        assert forall|i: int| 0 <= i < text.len() implies '\0' <= #[trigger] text[i]
            <= '\u{7f}' by {
            assert(digit_value(text[i], 16) is Some && (text[i] as u32) < 128);
            lemma_ascii(text[i]);
        }
    }
    is_ascii_chars_encode_utf8(text);
    assert forall|i: int| 0 <= i < s.len() implies nibble(#[trigger] s[i]) == digit_value(
        text[i],
        16,
    ) by {
        assert(digit_value(text[i], 16) is Some && (text[i] as u32) < 128);
        lemma_ascii(text[i]);
        assert(s[i] == text[i] as u8);
    }
    lemma_all_digits(s);
    let read = hex_outcome(s)->Ok_0;
    assert forall|k: int| 0 <= k < data.len() implies read[k] == data[k] by {
        let n = data[k] as nat;
        lemma_digit_reads_back(n / 16, 16);
        lemma_digit_reads_back(n % 16, 16);
        assert(nibble(s[2 * k]) == Some(n / 16));
        assert(nibble(s[2 * k + 1]) == Some(n % 16));
        assert(16 * (n / 16) + n % 16 == n);
    }
    assert(read =~= data);
}

proof fn lemma_ascii(c: char)
    requires
        (c as u32) < 128,
    ensures
        '\0' <= c <= '\u{7f}',
        (c as u8) as char == c,
{
}

proof fn lemma_all_digits(s: Seq<u8>)
    requires
        forall|i: int| 0 <= i < s.len() ==> nibble(#[trigger] s[i]) is Some,
    ensures
        first_non_digit(s) is None,
    decreases s.len(),
{
    if s.len() > 0 {
        assert forall|i: int| 0 <= i < s.drop_last().len() implies nibble(
            #[trigger] s.drop_last()[i],
        ) is Some by {
            assert(s.drop_last()[i] == s[i]);
        }
        lemma_all_digits(s.drop_last());
    }
}

} // verus!
