//! What holds of encoding and decoding together.

use vstd::prelude::*;

use crate::alphabet::{ascii_lower, digit_value, lemma_case_folds, lemma_symbol_value};
use crate::base32::{all_read, decodes, digits_of_bytes, payload, payload_len, values_of};
use crate::codec::{decoding_of, encoding_of, lemma_readings_concat, readings, Decoding};
use crate::radix::{
    are_digits, lemma_bytes_of_number_len, lemma_bytes_of_their_number,
    lemma_digits_of_number_len, lemma_digits_of_their_number, lemma_number_of_bytes_bound,
    lemma_number_of_digits_bound, lemma_number_of_its_bytes, lemma_number_of_its_digits,
    lemma_sixteen_bytes_fill_twenty_six_digits, lemma_zero_bytes_spell_zero,
    lemma_zero_is_spelt_with_zeros, number_of_bytes, number_of_digits,
};

verus! {

/// `text` with every ASCII upper-case letter replaced by its lower-case form.
pub open spec fn lowercase(text: Seq<char>) -> Seq<char> {
    Seq::new(text.len(), |i: int| ascii_lower(text[i]))
}

/// Whether `c` is one of the letters that are read as the digit one.
pub open spec fn looks_like_one(c: char) -> bool {
    c == 'i' || c == 'I' || c == 'l' || c == 'L'
}

/// Whether `c` is one of the letters that are read as the digit zero.
pub open spec fn looks_like_zero(c: char) -> bool {
    c == 'o' || c == 'O'
}

/// Whether two characters are taken alike in reading: both are hyphens, or
/// neither is and they have the same value or both none.
pub open spec fn read_alike(a: char, b: char) -> bool {
    (a == '-') == (b == '-') && digit_value(a) == digit_value(b)
}

/// Texts whose characters are read alike, place by place, are read alike.
pub proof fn lemma_read_alike(a: Seq<char>, b: Seq<char>)
    requires
        a.len() == b.len(),
        forall|i: int| 0 <= i < a.len() ==> read_alike(#[trigger] a[i], b[i]),
    ensures
        readings(a) == readings(b),
        decoding_of(a) == decoding_of(b),
    decreases a.len(),
{
    if a.len() > 0 {
        lemma_read_alike(a.drop_last(), b.drop_last());
        assert(read_alike(a[a.len() - 1], b[a.len() - 1]));
    }
}

/// A text without hyphens is read character by character.
pub proof fn lemma_readings_without_hyphens(text: Seq<char>)
    requires
        forall|i: int| 0 <= i < text.len() ==> #[trigger] text[i] != '-',
    ensures
        readings(text) == Seq::new(text.len(), |i: int| digit_value(text[i])),
    decreases text.len(),
{
    if text.len() > 0 {
        lemma_readings_without_hyphens(text.drop_last());
    }
    assert(readings(text) =~= Seq::new(text.len(), |i: int| digit_value(text[i])));
}

/// The canonical text of sixteen bytes has twenty-six characters, each a
/// symbol of the alphabet, and is read as the digits of the bytes.
pub proof fn lemma_encoding_is_canonical(bytes: Seq<u8>)
    ensures
        encoding_of(bytes).len() == 26,
        forall|i: int| 0 <= i < 26 ==> crate::alphabet::is_symbol(#[trigger] encoding_of(bytes)[i]),
        forall|i: int| 0 <= i < 26 ==> #[trigger] encoding_of(bytes)[i] != '-',
        readings(encoding_of(bytes)).len() == 26,
        all_read(readings(encoding_of(bytes))),
        values_of(readings(encoding_of(bytes))) == digits_of_bytes(bytes),
{
    let text = encoding_of(bytes);
    let digits = digits_of_bytes(bytes);
    lemma_digits_of_number_len(number_of_bytes(bytes) * 4, 26);
    assert forall|i: int| 0 <= i < 26 implies crate::alphabet::is_symbol(#[trigger] text[i])
        && text[i] != '-' && digit_value(text[i]) == Some(digits[i]) by {
        lemma_symbol_value(digits[i]);
    }
    lemma_readings_without_hyphens(text);
    assert(values_of(readings(text)) =~= digits);
}

/// Sixteen zero bytes are written with the first symbol alone.
pub proof fn lemma_zero_bytes_encode_as_zeros(bytes: Seq<u8>)
    requires
        bytes.len() == 16,
        forall|i: int| 0 <= i < 16 ==> bytes[i] == 0,
    ensures
        encoding_of(bytes) == Seq::new(26, |i: int| '0'),
{
    lemma_zero_bytes_spell_zero(bytes);
    lemma_zero_is_spelt_with_zeros(26);
    assert(encoding_of(bytes) =~= Seq::new(26, |i: int| '0'));
}

/// Decoding the canonical text of sixteen bytes gives the bytes back.
pub proof fn lemma_round_trip(bytes: Seq<u8>)
    requires
        bytes.len() == 16,
    ensures
        decoding_of(encoding_of(bytes)) == Decoding::Bytes(bytes),
{
    let number = number_of_bytes(bytes);
    lemma_encoding_is_canonical(bytes);
    lemma_number_of_bytes_bound(bytes);
    lemma_sixteen_bytes_fill_twenty_six_digits();
    lemma_number_of_its_digits(number * 4, 26);
    lemma_bytes_of_their_number(bytes);
    let read = readings(encoding_of(bytes));
    assert(read.len() == 26);
    assert(number_of_digits(values_of(read)) == number * 4);
    assert(payload_len(26) == 16);
    assert((number * 4) / 4 == number);
    assert(decodes(read));
    assert(payload(read) == bytes);
}

/// Different bytes have different canonical texts.
pub proof fn lemma_encoding_is_injective(a: Seq<u8>, b: Seq<u8>)
    requires
        a.len() == 16,
        b.len() == 16,
        encoding_of(a) == encoding_of(b),
    ensures
        a == b,
{
    lemma_round_trip(a);
    lemma_round_trip(b);
}

/// A text that decodes to bytes is read as the digits of those bytes: the
/// canonical text of the bytes differs from it only in hyphens, case and
/// look-alike letters.
pub proof fn lemma_decoded_bytes_encode_alike(text: Seq<char>)
    requires
        decoding_of(text) is Bytes,
    ensures
        decoding_of(text)->Bytes_0.len() == 16,
        readings(encoding_of(decoding_of(text)->Bytes_0)) == readings(text),
{
    let read = readings(text);
    let digits = values_of(read);
    let number = number_of_digits(digits);
    let bytes = payload(read);
    assert(read.len() == 26);
    assert(are_digits(digits)) by {
        assert forall|i: int| 0 <= i < digits.len() implies 0 <= #[trigger] digits[i] < 32 by {
            lemma_readings_are_digits(text, i);
        }
    }
    lemma_number_of_digits_bound(digits);
    lemma_sixteen_bytes_fill_twenty_six_digits();
    lemma_bytes_of_number_len((number / 4) as nat, 16);
    lemma_number_of_its_bytes((number / 4) as nat, 16);
    assert(number_of_bytes(bytes) * 4 == number);
    lemma_digits_of_their_number(digits);
    assert(digits_of_bytes(bytes) == digits);
    lemma_encoding_is_canonical(bytes);
    let again = readings(encoding_of(bytes));
    assert forall|i: int| 0 <= i < 26 implies again[i] == read[i] by {
        assert(values_of(again)[i] == values_of(read)[i]);
    }
    assert(again =~= read);
}

/// Whatever is read has a value below thirty-two.
pub proof fn lemma_readings_are_digits(text: Seq<char>, i: int)
    requires
        0 <= i < readings(text).len(),
    ensures
        readings(text)[i] matches Some(value) ==> 0 <= value < 32,
    decreases text.len(),
{
    if text.len() > 0 {
        if text.last() == '-' {
            lemma_readings_are_digits(text.drop_last(), i);
        } else if i < readings(text.drop_last()).len() {
            lemma_readings_are_digits(text.drop_last(), i);
        } else {
            crate::alphabet::lemma_digit_value_range(text.last());
        }
    }
}

/// Case does not matter: a text and its lower-case form decode alike.
pub proof fn lemma_case_insensitive(text: Seq<char>)
    ensures
        decoding_of(lowercase(text)) == decoding_of(text),
{
    assert forall|i: int| 0 <= i < text.len() implies read_alike(
        #[trigger] lowercase(text)[i],
        text[i],
    ) by {
        lemma_case_folds(text[i]);
    }
    lemma_read_alike(lowercase(text), text);
}

/// Look-alike letters fold: where `folded` has an `i`, `I`, `l` or `L` in
/// place of a `1` of `text`, or an `o` or `O` in place of a `0`, and is
/// otherwise the same, the two decode alike.
pub proof fn lemma_ambiguous_characters_fold(text: Seq<char>, folded: Seq<char>)
    requires
        folded.len() == text.len(),
        forall|i: int|
            0 <= i < text.len() ==> #[trigger] folded[i] == text[i] || (text[i] == '1'
                && looks_like_one(folded[i])) || (text[i] == '0' && looks_like_zero(folded[i])),
    ensures
        decoding_of(folded) == decoding_of(text),
{
    assert forall|i: int| 0 <= i < folded.len() implies read_alike(#[trigger] folded[i], text[i]) by {
    }
    lemma_read_alike(folded, text);
}

/// A hyphen put in anywhere changes nothing.
pub proof fn lemma_hyphen_is_skipped(text: Seq<char>, place: int)
    requires
        0 <= place <= text.len(),
    ensures
        readings(text.insert(place, '-')) == readings(text),
        decoding_of(text.insert(place, '-')) == decoding_of(text),
{
    let before = text.take(place);
    let after = text.skip(place);
    let hyphen = seq!['-'];
    assert(text.insert(place, '-') =~= before + hyphen + after);
    assert(text =~= before + after);
    lemma_readings_concat(before + hyphen, after);
    lemma_readings_concat(before, hyphen);
    lemma_readings_concat(before, after);
    assert(hyphen.drop_last() =~= Seq::<char>::empty());
    assert(readings(Seq::<char>::empty()) =~= Seq::<Option<int>>::empty());
    assert(readings(hyphen) =~= Seq::<Option<int>>::empty());
    assert(readings(before) + readings(hyphen) =~= readings(before));
}

/// Texts that differ only in their hyphens decode alike.
pub proof fn lemma_hyphens_do_not_matter(a: Seq<char>, b: Seq<char>)
    requires
        a.filter(|c: char| c != '-') == b.filter(|c: char| c != '-'),
    ensures
        decoding_of(a) == decoding_of(b),
{
    lemma_readings_of_filtered(a);
    lemma_readings_of_filtered(b);
}

/// A text is read as it is read with its hyphens taken out.
pub proof fn lemma_readings_of_filtered(text: Seq<char>)
    ensures
        readings(text) == readings(text.filter(|c: char| c != '-')),
    decreases text.len(),
{
    let keep = |c: char| c != '-';
    reveal(Seq::filter);
    if text.len() > 0 {
        lemma_readings_of_filtered(text.drop_last());
        let front = text.drop_last().filter(keep);
        if text.last() != '-' {
            assert(text.filter(keep) =~= front.push(text.last()));
            assert(text.filter(keep).drop_last() =~= front);
        }
    }
}

} // verus!
