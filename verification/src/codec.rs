//! Sixteen bytes as twenty-six Crockford characters, and back.

use vstd::prelude::*;
use vstd::string::StringExecFns;
use vstd::utf8::is_ascii_chars;

use crate::alphabet::{
    ascii_lower, digit_of_byte, digit_value, is_symbol, lemma_symbol_value, symbol_of,
};
use crate::base32::{
    all_read, base32_decode, base32_encode, decode_failure, decodes, digits_of_bytes, payload,
    payload_len, symbols_fit, table_readings, table_value, tables_fit, DecodeFailure,
};
use crate::radix::{lemma_bytes_of_number_len, lemma_digits_of_number_len};
use crate::text::{decimal, decimal_string};

verus! {

/// The thirty-two symbols, in the order of their values.
pub const SYMBOLS: &'static str = "0123456789ABCDEFGHJKMNPQRSTVWXYZ";

/// Characters that are no symbols and are read all the same: the letters
/// that look like a digit, and the lower-case letters.
pub const ALSO_READ: &'static str = "iolIOLabcdefghjkmnpqrstvwxyz";

/// The symbol that each of `ALSO_READ` is read as.
pub const READ_AS: &'static str = "101101ABCDEFGHJKMNPQRSTVWXYZ";

/// Characters that are skipped in reading.
pub const SKIPPED: &'static str = "-";

/// The character at place `i` of `ALSO_READ`.
pub open spec fn also_read_at(i: int) -> char {
    if i == 0 {
        'i'
    } else if i == 1 {
        'o'
    } else if i == 2 {
        'l'
    } else if i == 3 {
        'I'
    } else if i == 4 {
        'O'
    } else if i == 5 {
        'L'
    } else {
        ascii_lower(symbol_of(i + 4))
    }
}

/// The character at place `i` of `READ_AS`.
pub open spec fn read_as_at(i: int) -> char {
    if i == 1 || i == 4 {
        '0'
    } else if i < 6 {
        '1'
    } else {
        symbol_of(i + 4)
    }
}

/// What the four tables hold, place by place.
pub proof fn lemma_table_contents()
    ensures
        SYMBOLS@.len() == 32,
        ALSO_READ@.len() == 28,
        READ_AS@.len() == 28,
        SKIPPED@ == seq!['-'],
        forall|i: int| 0 <= i < 32 ==> #[trigger] SYMBOLS@[i] == symbol_of(i),
        forall|i: int| 0 <= i < 28 ==> #[trigger] ALSO_READ@[i] == also_read_at(i),
        forall|i: int| 0 <= i < 28 ==> #[trigger] READ_AS@[i] == read_as_at(i),
{
    reveal_strlit("0123456789ABCDEFGHJKMNPQRSTVWXYZ");
    reveal_strlit("iolIOLabcdefghjkmnpqrstvwxyz");
    reveal_strlit("101101ABCDEFGHJKMNPQRSTVWXYZ");
    reveal_strlit("-");
    assert(SKIPPED@ =~= seq!['-']);
}

/// A decoder can be set up with the four tables.
pub proof fn lemma_tables_fit()
    ensures
        symbols_fit(SYMBOLS@),
        tables_fit(SYMBOLS@, ALSO_READ@, READ_AS@, SKIPPED@),
{
    lemma_table_contents();
    assert forall|i: int| 0 <= i < 32 implies digit_value(#[trigger] SYMBOLS@[i]) == Some(i) by {
        lemma_symbol_value(i);
    }
    assert forall|i: int| 0 <= i < 28 implies SYMBOLS@.contains(#[trigger] READ_AS@[i]) by {
        let value = if i == 1 || i == 4 {
            0
        } else if i < 6 {
            1
        } else {
            i + 4
        };
        assert(SYMBOLS@[value] == READ_AS@[i]);
    }
}

/// A decoder set up with the four tables reads each character as
/// `digit_value` says, and skips the hyphen alone.
pub proof fn lemma_tables_read(c: char)
    ensures
        table_value(SYMBOLS@, ALSO_READ@, READ_AS@, c) == digit_value(c),
        SKIPPED@.contains(c) <==> c == '-',
{
    lemma_table_contents();
    let symbols = SYMBOLS@;
    let from = ALSO_READ@;
    let to = READ_AS@;
    assert forall|i: int| 0 <= i < 32 implies digit_value(#[trigger] symbols[i]) == Some(i) by {
        lemma_symbol_value(i);
    }
    assert(SKIPPED@[0] == '-');
    match digit_value(c) {
        Some(value) => {
            if c == symbol_of(value) {
                assert(symbols[value] == c);
            } else {
                let place = if c == 'i' {
                    0
                } else if c == 'o' {
                    1
                } else if c == 'l' {
                    2
                } else if c == 'I' {
                    3
                } else if c == 'O' {
                    4
                } else if c == 'L' {
                    5
                } else {
                    value - 4
                };
                assert(from[place] == c);
                let found = from.index_of(c);
                assert(from[found] == c);
                assert(symbols[value] == to[found]);
            }
        },
        None => {},
    }
}

/// What is read in `text`, character by character: hyphens are left out,
/// and a character without a value is `None`.
pub open spec fn readings(text: Seq<char>) -> Seq<Option<int>>
    decreases text.len(),
{
    if text.len() == 0 {
        Seq::empty()
    } else if text.last() == '-' {
        readings(text.drop_last())
    } else {
        readings(text.drop_last()).push(digit_value(text.last()))
    }
}

/// What decoding makes of a text.
pub enum Decoding {
    /// The sixteen bytes that the text encodes.
    Bytes(Seq<u8>),
    /// Every character has a value, but the digits hold this many whole
    /// bytes and not sixteen.
    WrongLength(nat),
    /// A character has no value, or the digits hold sixteen bytes without
    /// encoding them: there is one digit too many, or the two bits after
    /// the last byte are not zero.
    Malformed,
}

/// What decoding makes of `text`.
pub open spec fn decoding_of(text: Seq<char>) -> Decoding {
    let read = readings(text);
    if !all_read(read) {
        Decoding::Malformed
    } else if payload_len(read.len()) != 16 {
        Decoding::WrongLength(payload_len(read.len()))
    } else if decodes(read) {
        Decoding::Bytes(payload(read))
    } else {
        Decoding::Malformed
    }
}

/// The canonical text of sixteen bytes: their twenty-six digits, each
/// written as its symbol.
pub open spec fn encoding_of(bytes: Seq<u8>) -> Seq<char> {
    Seq::new(26, |i: int| symbol_of(digits_of_bytes(bytes)[i]))
}

/// The report of the underlying decoder on a text that it refuses.
pub open spec fn failure_report(text: Seq<char>) -> DecodeFailure {
    decode_failure(SYMBOLS@, ALSO_READ@, READ_AS@, SKIPPED@, text)
}

/// A decoder set up with the four tables reads a text as `readings` says.
pub proof fn lemma_table_readings(text: Seq<char>)
    ensures
        table_readings(SYMBOLS@, ALSO_READ@, READ_AS@, SKIPPED@, text) == readings(text),
    decreases text.len(),
{
    if text.len() > 0 {
        lemma_table_readings(text.drop_last());
        lemma_tables_read(text.last());
    }
}

/// Why decoding failed.
#[derive(Clone, Copy, Debug, PartialEq, Eq, Structural)]
pub enum CrockfordError {
    /// The text holds this many whole bytes and not sixteen.
    InvalidLength(usize),
    /// The decoder refused the text; this is its report.
    DecodeError(DecodeFailure),
}

impl CrockfordError {
    /// The words of the error.
    pub open spec fn text(self) -> Seq<char> {
        match self {
            CrockfordError::InvalidLength(len) => "expected 16 bytes, got "@ + decimal(len as nat),
            CrockfordError::DecodeError(failure) => failure.text(),
        }
    }

    /// The error in words.
    pub fn message(&self) -> (message: String)
        ensures
            message@ == self.text(),
    {
        match self {
            CrockfordError::InvalidLength(len) => {
                let mut message = String::from_str("expected 16 bytes, got ");
                message.append(decimal_string(*len).as_str());
                message
            },
            CrockfordError::DecodeError(failure) => failure.message(),
        }
    }
}

/// Writes sixteen bytes as twenty-six characters of the alphabet.
pub fn encode_bytes_to_crockford(bytes: &[u8; 16]) -> (text: String)
    ensures
        text@ == encoding_of(bytes@),
        text@.len() == 26,
        forall|i: int| 0 <= i < 26 ==> is_symbol(#[trigger] text@[i]),
{
    proof {
        lemma_tables_fit();
        lemma_table_contents();
        lemma_digits_of_number_len((crate::radix::number_of_bytes(bytes@) * 4) as nat, 26);
    }
    let text = base32_encode(SYMBOLS, bytes);
    assert(text@ =~= encoding_of(bytes@));
    text
}

/// Reading a text in two parts gives the two readings, one after the other.
pub proof fn lemma_readings_concat(a: Seq<char>, b: Seq<char>)
    ensures
        readings(a + b) == readings(a) + readings(b),
    decreases b.len(),
{
    if b.len() == 0 {
        assert(a + b =~= a);
        assert(readings(a) + readings(b) =~= readings(a));
    } else {
        lemma_readings_concat(a, b.drop_last());
        assert((a + b).drop_last() =~= a + b.drop_last());
        assert((a + b).last() == b.last());
        assert(readings(a + b) =~= readings(a) + readings(b));
    }
}

/// A character that is neither read nor skipped spoils the reading.
pub proof fn lemma_unread_character(text: Seq<char>, place: int)
    requires
        0 <= place < text.len(),
        text[place] != '-',
        digit_value(text[place]) is None,
    ensures
        !all_read(readings(text)),
{
    let before = text.take(place);
    let here = seq![text[place]];
    let after = text.skip(place + 1);
    assert(text =~= before + here + after);
    lemma_readings_concat(before + here, after);
    lemma_readings_concat(before, here);
    assert(here.drop_last() =~= Seq::<char>::empty());
    assert(readings(Seq::<char>::empty()) =~= Seq::<Option<int>>::empty());
    assert(readings(here) =~= seq![None::<int>]);
    let read = readings(text);
    let at = readings(before).len() as int;
    assert(read[at] is None);
}

/// How many characters of `s` are read as digits, or `None` if one of its
/// characters is neither read nor skipped.
pub fn count_digits(s: &str) -> (count: Option<usize>)
    ensures
        match count {
            Some(n) => all_read(readings(s@)) && n == readings(s@).len(),
            None => !all_read(readings(s@)),
        },
{
    if !s.is_ascii() {
        proof {
            let place = choose|i: int| 0 <= i < s@.len() && !('\0' <= #[trigger] s@[i] <= '\u{7f}');
            lemma_unread_character(s@, place);
        }
        return None;
    }
    let bytes = s.as_bytes();
    proof {
        vstd::string::is_ascii_spec_bytes(s);
    }
    let mut count: usize = 0;
    let mut i: usize = 0;
    while i < bytes.len()
        invariant
            i <= bytes@.len(),
            bytes@.len() == s@.len(),
            is_ascii_chars(s@),
            forall|k: int| 0 <= k < s@.len() ==> #[trigger] bytes@[k] == s@[k] as u8,
            all_read(readings(s@.take(i as int))),
            count == readings(s@.take(i as int)).len(),
            count <= i,
        decreases bytes@.len() - i,
    {
        let b = bytes[i];
        proof {
            let upto = s@.take(i + 1);
            assert(upto.drop_last() =~= s@.take(i as int));
            assert(upto.last() == s@[i as int]);
            assert(b as char == s@[i as int]);
        }
        if b != ('-' as u8) {
            match digit_of_byte(b) {
                Some(_) => {
                    count = count + 1;
                },
                None => {
                    proof {
                        lemma_unread_character(s@, i as int);
                    }
                    return None;
                },
            }
        }
        i = i + 1;
    }
    proof {
        assert(s@.take(i as int) =~= s@);
    }
    Some(count)
}

/// What a caller is told about `text`, given what the underlying decoder
/// made of it.
///
/// Bytes that are not sixteen in number are an `InvalidLength`. A refusal by
/// the decoder is an `InvalidLength` too where every character was read and
/// the digits hold another number of whole bytes than sixteen; otherwise it
/// is passed on.
pub open spec fn resolution(text: Seq<char>, decoded: Result<Seq<u8>, DecodeFailure>) -> Result<
    Seq<u8>,
    CrockfordError,
> {
    match decoded {
        Ok(bytes) => if bytes.len() == 16 {
            Ok(bytes)
        } else {
            Err(CrockfordError::InvalidLength(bytes.len() as usize))
        },
        Err(failure) => {
            let read = readings(text);
            if all_read(read) && payload_len(read.len()) != 16 {
                Err(CrockfordError::InvalidLength(payload_len(read.len()) as usize))
            } else {
                Err(CrockfordError::DecodeError(failure))
            }
        },
    }
}

/// The outcome of the underlying decoder with its bytes taken as a sequence.
pub open spec fn decoded_view(decoded: Result<Vec<u8>, DecodeFailure>) -> Result<
    Seq<u8>,
    DecodeFailure,
> {
    match decoded {
        Ok(bytes) => Ok(bytes@),
        Err(failure) => Err(failure),
    }
}

/// A copy of sixteen bytes as an array.
pub(crate) fn sixteen(bytes: &[u8]) -> (array: [u8; 16])
    requires
        bytes@.len() == 16,
    ensures
        array@ == bytes@,
{
    let mut array = [0u8; 16];
    let mut i: usize = 0;
    while i < 16
        invariant
            i <= 16,
            bytes@.len() == 16,
            forall|k: int| 0 <= k < i ==> array@[k] == bytes@[k],
        decreases 16 - i,
    {
        array[i] = bytes[i];
        i = i + 1;
    }
    assert(array@ =~= bytes@);
    array
}

/// Turns what the underlying decoder made of `s` into the result of
/// decoding.
pub fn resolve_decoding(s: &str, decoded: Result<Vec<u8>, DecodeFailure>) -> (r: Result<
    [u8; 16],
    CrockfordError,
>)
    ensures
        match resolution(s@, decoded_view(decoded)) {
            Ok(bytes) => r matches Ok(array) && array@ == bytes,
            Err(error) => r == Err::<[u8; 16], CrockfordError>(error),
        },
{
    match decoded {
        Ok(bytes) => {
            if bytes.len() != 16 {
                return Err(CrockfordError::InvalidLength(bytes.len()));
            }
            Ok(sixteen(bytes.as_slice()))
        },
        Err(failure) => {
            match count_digits(s) {
                Some(count) => {
                    let held = count / 8 * 5 + count % 8 * 5 / 8;
                    assert(held == payload_len(count as nat));
                    if held != 16 {
                        return Err(CrockfordError::InvalidLength(held));
                    }
                    Err(CrockfordError::DecodeError(failure))
                },
                None => Err(CrockfordError::DecodeError(failure)),
            }
        },
    }
}

/// Reads sixteen bytes from their Crockford text.
///
/// Hyphens are skipped, letters count in either case, `I` and `L` are read
/// as `1` and `O` as `0`. The text must be no longer than an eighth of the
/// address space.
pub fn decode_crockford_to_bytes(s: &str) -> (r: Result<[u8; 16], CrockfordError>)
    requires
        s.len() <= usize::MAX / 8,
    ensures
        match decoding_of(s@) {
            Decoding::Bytes(bytes) => r matches Ok(array) && array@ == bytes,
            Decoding::WrongLength(len) => r == Err::<[u8; 16], CrockfordError>(
                CrockfordError::InvalidLength(len as usize),
            ),
            Decoding::Malformed => r == Err::<[u8; 16], CrockfordError>(
                CrockfordError::DecodeError(failure_report(s@)),
            ),
        },
{
    proof {
        lemma_tables_fit();
        lemma_table_readings(s@);
        let read = readings(s@);
        lemma_bytes_of_number_len(
            (crate::radix::number_of_digits(crate::base32::values_of(read))
                / crate::base32::trailing_weight(read.len())) as nat,
            payload_len(read.len()),
        );
    }
    let decoded = base32_decode(SYMBOLS, ALSO_READ, READ_AS, SKIPPED, s);
    resolve_decoding(s, decoded)
}

} // verus!
