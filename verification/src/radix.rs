//! Numbers written as bytes (base 256) and as five-bit digits (base 32),
//! most significant place first.

use vstd::prelude::*;

verus! {

/// The number that `bytes` spell in base 256.
pub open spec fn number_of_bytes(bytes: Seq<u8>) -> nat
    decreases bytes.len(),
{
    if bytes.len() == 0 {
        0
    } else {
        number_of_bytes(bytes.drop_last()) * 256 + bytes.last() as nat
    }
}

/// The `len` lowest places of `number` in base 256.
pub open spec fn bytes_of_number(number: nat, len: nat) -> Seq<u8>
    decreases len,
{
    if len == 0 {
        Seq::empty()
    } else {
        bytes_of_number(number / 256, (len - 1) as nat).push((number % 256) as u8)
    }
}

/// How many numbers `len` bytes can spell: 256 to the power `len`.
pub open spec fn byte_capacity(len: nat) -> nat
    decreases len,
{
    if len == 0 {
        1
    } else {
        byte_capacity((len - 1) as nat) * 256
    }
}

/// Whether every entry of `digits` is a five-bit value.
pub open spec fn are_digits(digits: Seq<int>) -> bool {
    forall|i: int| 0 <= i < digits.len() ==> 0 <= #[trigger] digits[i] < 32
}

/// The number that `digits` spell in base 32.
pub open spec fn number_of_digits(digits: Seq<int>) -> int
    decreases digits.len(),
{
    if digits.len() == 0 {
        0
    } else {
        number_of_digits(digits.drop_last()) * 32 + digits.last()
    }
}

/// The `len` lowest places of `number` in base 32.
pub open spec fn digits_of_number(number: nat, len: nat) -> Seq<int>
    decreases len,
{
    if len == 0 {
        Seq::empty()
    } else {
        digits_of_number(number / 32, (len - 1) as nat).push((number % 32) as int)
    }
}

/// How many numbers `len` digits can spell: 32 to the power `len`.
pub open spec fn digit_capacity(len: nat) -> nat
    decreases len,
{
    if len == 0 {
        1
    } else {
        digit_capacity((len - 1) as nat) * 32
    }
}

/// A number written in `len` bytes takes `len` bytes.
pub proof fn lemma_bytes_of_number_len(number: nat, len: nat)
    ensures
        bytes_of_number(number, len).len() == len,
    decreases len,
{
    if len > 0 {
        lemma_bytes_of_number_len(number / 256, (len - 1) as nat);
    }
}

/// Bytes spell a number below the capacity of their length.
pub proof fn lemma_number_of_bytes_bound(bytes: Seq<u8>)
    ensures
        number_of_bytes(bytes) < byte_capacity(bytes.len()),
    decreases bytes.len(),
{
    if bytes.len() > 0 {
        lemma_number_of_bytes_bound(bytes.drop_last());
    }
}

/// Writing out the number that `bytes` spell, at their length, gives `bytes`.
pub proof fn lemma_bytes_of_their_number(bytes: Seq<u8>)
    ensures
        bytes_of_number(number_of_bytes(bytes), bytes.len()) == bytes,
    decreases bytes.len(),
{
    if bytes.len() > 0 {
        let front = bytes.drop_last();
        lemma_bytes_of_their_number(front);
        let number = number_of_bytes(bytes);
        assert(number / 256 == number_of_bytes(front));
        assert(number % 256 == bytes.last() as nat);
        assert(bytes_of_number(number, bytes.len()) =~= bytes);
    } else {
        assert(bytes_of_number(number_of_bytes(bytes), bytes.len()) =~= bytes);
    }
}

/// A number below the capacity of `len` bytes is spelt by its `len` bytes.
pub proof fn lemma_number_of_its_bytes(number: nat, len: nat)
    requires
        number < byte_capacity(len),
    ensures
        number_of_bytes(bytes_of_number(number, len)) == number,
    decreases len,
{
    if len > 0 {
        lemma_number_of_its_bytes(number / 256, (len - 1) as nat);
        let bytes = bytes_of_number(number, len);
        assert(bytes.drop_last() =~= bytes_of_number(number / 256, (len - 1) as nat));
    }
}

/// A number written in `len` digits takes `len` entries, each a five-bit
/// value.
pub proof fn lemma_digits_of_number_len(number: nat, len: nat)
    ensures
        digits_of_number(number, len).len() == len,
        are_digits(digits_of_number(number, len)),
    decreases len,
{
    if len > 0 {
        lemma_digits_of_number_len(number / 32, (len - 1) as nat);
    }
}

/// Digits spell a number from zero up to the capacity of their length.
pub proof fn lemma_number_of_digits_bound(digits: Seq<int>)
    requires
        are_digits(digits),
    ensures
        0 <= number_of_digits(digits) < digit_capacity(digits.len()),
    decreases digits.len(),
{
    if digits.len() > 0 {
        lemma_number_of_digits_bound(digits.drop_last());
    }
}

/// Writing out the number that `digits` spell, at their length, gives
/// `digits`.
pub proof fn lemma_digits_of_their_number(digits: Seq<int>)
    requires
        are_digits(digits),
    ensures
        digits_of_number(number_of_digits(digits) as nat, digits.len()) == digits,
    decreases digits.len(),
{
    if digits.len() > 0 {
        let front = digits.drop_last();
        lemma_digits_of_their_number(front);
        lemma_number_of_digits_bound(front);
        let number = number_of_digits(digits);
        assert(number / 32 == number_of_digits(front));
        assert(number % 32 == digits.last());
        assert(digits_of_number(number as nat, digits.len()) =~= digits);
    } else {
        assert(digits_of_number(number_of_digits(digits) as nat, digits.len()) =~= digits);
    }
}

/// A number below the capacity of `len` digits is spelt by its `len` digits.
pub proof fn lemma_number_of_its_digits(number: nat, len: nat)
    requires
        number < digit_capacity(len),
    ensures
        number_of_digits(digits_of_number(number, len)) == number,
    decreases len,
{
    if len > 0 {
        lemma_number_of_its_digits(number / 32, (len - 1) as nat);
        let digits = digits_of_number(number, len);
        assert(digits.drop_last() =~= digits_of_number(number / 32, (len - 1) as nat));
    }
}

/// Zero bytes spell zero.
pub proof fn lemma_zero_bytes_spell_zero(bytes: Seq<u8>)
    requires
        forall|i: int| 0 <= i < bytes.len() ==> bytes[i] == 0,
    ensures
        number_of_bytes(bytes) == 0,
    decreases bytes.len(),
{
    if bytes.len() > 0 {
        lemma_zero_bytes_spell_zero(bytes.drop_last());
    }
}

/// Zero is spelt with zero digits.
pub proof fn lemma_zero_is_spelt_with_zeros(len: nat)
    ensures
        digits_of_number(0, len) == Seq::new(len, |i: int| 0int),
    decreases len,
{
    if len > 0 {
        lemma_zero_is_spelt_with_zeros((len - 1) as nat);
    }
    assert(digits_of_number(0, len) =~= Seq::new(len, |i: int| 0int));
}

/// Sixteen bytes and two more bits fill twenty-six digits exactly.
pub proof fn lemma_sixteen_bytes_fill_twenty_six_digits()
    ensures
        byte_capacity(16) * 4 == digit_capacity(26),
{
    reveal_with_fuel(byte_capacity, 17);
    reveal_with_fuel(digit_capacity, 27);
}

} // verus!
