//! The base-32 conversion of the `data_encoding` crate, as this library
//! uses it: most significant bit first, no padding, trailing bits checked.
//!
//! The spec functions of this module say what a decoder set up with given
//! tables makes of a text. The two functions at the end call the crate; their
//! contracts are taken on trust.

use data_encoding::{DecodeKind, Specification};
use vstd::prelude::*;
use vstd::string::StringExecFns;
use vstd::utf8::is_ascii_chars;

use crate::radix::{bytes_of_number, digits_of_number, number_of_bytes, number_of_digits};
use crate::text::{decimal, decimal_string};

verus! {

/// What went wrong in a text that the decoder refused.
#[derive(Clone, Copy, Debug, PartialEq, Eq, Structural)]
pub enum FailureKind {
    /// The symbols do not make up a whole number of bytes.
    Length,
    /// A character is neither a symbol nor skipped.
    Symbol,
    /// The bits left over after the last byte are not all zero.
    Trailing,
    /// The padding has an impossible length.
    Padding,
}

/// The decoder's report on a text that it refused.
#[derive(Clone, Copy, Debug, PartialEq, Eq, Structural)]
pub struct DecodeFailure {
    /// Index of the byte of the text at which the decoder stopped.
    pub position: usize,
    /// What it found there.
    pub kind: FailureKind,
}

impl FailureKind {
    /// The words for this kind of failure.
    pub open spec fn text(self) -> Seq<char> {
        match self {
            FailureKind::Length => "invalid length"@,
            FailureKind::Symbol => "invalid symbol"@,
            FailureKind::Trailing => "non-zero trailing bits"@,
            FailureKind::Padding => "invalid padding length"@,
        }
    }
}

impl DecodeFailure {
    /// The words of the report: what was found, and at which byte.
    pub open spec fn text(self) -> Seq<char> {
        self.kind.text() + " at "@ + decimal(self.position as nat)
    }

    /// The report in words.
    pub fn message(&self) -> (message: String)
        ensures
            message@ == self.text(),
    {
        let words = match self.kind {
            FailureKind::Length => "invalid length",
            FailureKind::Symbol => "invalid symbol",
            FailureKind::Trailing => "non-zero trailing bits",
            FailureKind::Padding => "invalid padding length",
        };
        let mut message = String::from_str(words);
        message.append(" at ");
        message.append(decimal_string(self.position).as_str());
        message
    }
}

/// Whether `symbols` can serve as a base-32 alphabet: thirty-two different
/// ASCII characters.
pub open spec fn symbols_fit(symbols: Seq<char>) -> bool {
    &&& symbols.len() == 32
    &&& is_ascii_chars(symbols)
    &&& symbols.no_duplicates()
}

/// Whether a decoder can be set up with these tables: an alphabet, characters
/// to skip that are no symbols, and characters `from` that are neither, each to
/// be read as the symbol at the same place of `to`.
pub open spec fn tables_fit(
    symbols: Seq<char>,
    from: Seq<char>,
    to: Seq<char>,
    ignore: Seq<char>,
) -> bool {
    &&& symbols_fit(symbols)
    &&& is_ascii_chars(ignore)
    &&& is_ascii_chars(from)
    &&& from.len() == to.len()
    &&& from.no_duplicates()
    &&& forall|i: int| 0 <= i < ignore.len() ==> !symbols.contains(#[trigger] ignore[i])
    &&& forall|i: int| 0 <= i < to.len() ==> symbols.contains(#[trigger] to[i])
    &&& forall|i: int|
        0 <= i < from.len() ==> !symbols.contains(#[trigger] from[i]) && !ignore.contains(from[i])
}

/// The value that a decoder with these tables reads `c` as: the place of `c`
/// in the alphabet, or the place of the symbol that `c` is translated to.
pub open spec fn table_value(symbols: Seq<char>, from: Seq<char>, to: Seq<char>, c: char) -> Option<
    int,
> {
    if symbols.contains(c) {
        Some(symbols.index_of(c))
    } else if from.contains(c) {
        Some(symbols.index_of(to[from.index_of(c)]))
    } else {
        None
    }
}

/// What a decoder with these tables reads in `text`, character by character:
/// skipped characters are left out, and a character without a value is `None`.
pub open spec fn table_readings(
    symbols: Seq<char>,
    from: Seq<char>,
    to: Seq<char>,
    ignore: Seq<char>,
    text: Seq<char>,
) -> Seq<Option<int>>
    decreases text.len(),
{
    if text.len() == 0 {
        Seq::empty()
    } else {
        let front = table_readings(symbols, from, to, ignore, text.drop_last());
        if ignore.contains(text.last()) {
            front
        } else {
            front.push(table_value(symbols, from, to, text.last()))
        }
    }
}

/// Whether every character that was read has a value.
pub open spec fn all_read(readings: Seq<Option<int>>) -> bool {
    forall|i: int| 0 <= i < readings.len() ==> (#[trigger] readings[i]) is Some
}

/// The values that were read, zero standing in where there was none.
pub open spec fn values_of(readings: Seq<Option<int>>) -> Seq<int> {
    Seq::new(
        readings.len(),
        |i: int|
            match readings[i] {
                Some(value) => value,
                None => 0,
            },
    )
}

/// How many whole bytes `count` five-bit digits hold.
pub open spec fn payload_len(count: nat) -> nat {
    count * 5 / 8
}

/// Two to the number of bits that `count` digits hold beyond their whole
/// bytes, for the counts that leave fewer than five such bits.
pub open spec fn trailing_weight(count: nat) -> int {
    let rest = count % 8;
    if rest == 2 {
        4
    } else if rest == 4 {
        16
    } else if rest == 5 {
        2
    } else if rest == 7 {
        8
    } else {
        1
    }
}

/// Whether `count` digits can be the encoding of whole bytes: they leave
/// fewer than five bits over.
pub open spec fn is_whole_count(count: nat) -> bool {
    count % 8 != 1 && count % 8 != 3 && count % 8 != 6
}

/// Whether the readings are the encoding of some bytes: every character has a
/// value, the digits leave fewer than five bits over, and those bits are zero.
pub open spec fn decodes(readings: Seq<Option<int>>) -> bool {
    &&& all_read(readings)
    &&& is_whole_count(readings.len())
    &&& number_of_digits(values_of(readings)) % trailing_weight(readings.len()) == 0
}

/// The bytes that the readings encode: the number that the digits spell,
/// without its trailing bits, written in base 256.
pub open spec fn payload(readings: Seq<Option<int>>) -> Seq<u8> {
    bytes_of_number(
        (number_of_digits(values_of(readings)) / trailing_weight(readings.len())) as nat,
        payload_len(readings.len()),
    )
}

/// The text in which each of `digits` is written as its symbol.
pub open spec fn spelling(symbols: Seq<char>, digits: Seq<int>) -> Seq<char> {
    Seq::new(digits.len(), |i: int| symbols[digits[i]])
}

/// The twenty-six digits that encode sixteen bytes: the number that the bytes
/// spell, followed by two zero bits, written in base 32.
pub open spec fn digits_of_bytes(bytes: Seq<u8>) -> Seq<int> {
    digits_of_number(number_of_bytes(bytes) * 4, 26)
}

/// The report of `data_encoding`'s decoder, set up with these tables, on a
/// text that it refuses.
pub uninterp spec fn decode_failure(
    symbols: Seq<char>,
    from: Seq<char>,
    to: Seq<char>,
    ignore: Seq<char>,
    text: Seq<char>,
) -> DecodeFailure;

/// Calls `data_encoding::Encoding::encode` on a base-32 encoding that
/// `data_encoding::Specification::encoding` makes from `symbols`.
///
/// Trusted: the result writes the sixteen bytes, taken as one number with
/// the most significant bit first and filled up with two zero bits, in
/// twenty-six symbols.
#[verifier::external_body]
pub(crate) fn base32_encode(symbols: &str, bytes: &[u8; 16]) -> (text: String)
    requires
        symbols_fit(symbols@),
    ensures
        text@ == spelling(symbols@, digits_of_bytes(bytes@)),
{
    let mut spec = Specification::new();
    spec.symbols.push_str(symbols);
    spec.encoding().unwrap().encode(bytes)
}

/// Calls `data_encoding::Encoding::decode` on a base-32 encoding that
/// `data_encoding::Specification::encoding` makes from the four tables.
///
/// Trusted: the decoder accepts a text exactly when what it reads in it,
/// skipped characters left out, encodes whole bytes with zero trailing
/// bits, and then returns those bytes. Its report on a refused text depends
/// on the tables and the text alone; nothing more is claimed of it.
#[verifier::external_body]
pub(crate) fn base32_decode(symbols: &str, from: &str, to: &str, ignore: &str, text: &str) -> (r:
    Result<Vec<u8>, DecodeFailure>)
    requires
        tables_fit(symbols@, from@, to@, ignore@),
        text.len() <= usize::MAX / 8,
    ensures
        r is Ok <==> decodes(table_readings(symbols@, from@, to@, ignore@, text@)),
        r matches Ok(bytes) ==> bytes@ == payload(
            table_readings(symbols@, from@, to@, ignore@, text@),
        ),
        r matches Err(failure) ==> failure == decode_failure(
            symbols@,
            from@,
            to@,
            ignore@,
            text@,
        ),
{
    let mut spec = Specification::new();
    spec.symbols.push_str(symbols);
    spec.translate.from.push_str(from);
    spec.translate.to.push_str(to);
    spec.ignore.push_str(ignore);
    match spec.encoding().unwrap().decode(text.as_bytes()) {
        Ok(bytes) => Ok(bytes),
        Err(e) => Err(DecodeFailure { position: e.position, kind: match e.kind {
            DecodeKind::Length => FailureKind::Length,
            DecodeKind::Symbol => FailureKind::Symbol,
            DecodeKind::Trailing => FailureKind::Trailing,
            DecodeKind::Padding => FailureKind::Padding,
        } }),
    }
}

} // verus!
