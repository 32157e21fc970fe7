//! Encoding keeps the order: bytes that sort first have the text that sorts
//! first.

use vstd::prelude::*;

use crate::alphabet::symbol_of;
use crate::base32::digits_of_bytes;
use crate::codec::encoding_of;
use crate::radix::{
    are_digits, lemma_bytes_of_their_number, lemma_digits_of_number_len,
    lemma_digits_of_their_number, lemma_number_of_bytes_bound, lemma_number_of_digits_bound,
    lemma_number_of_its_digits, lemma_sixteen_bytes_fill_twenty_six_digits, number_of_bytes,
    number_of_digits,
};

verus! {

/// Whether `a` sorts before `b`: at the first place where they differ, `a`
/// has the smaller byte. Both have one length.
pub open spec fn bytes_sort_before(a: Seq<u8>, b: Seq<u8>) -> bool {
    exists|k: int| 0 <= k < a.len() && #[trigger] a.take(k) == b.take(k) && a[k] < b[k]
}

/// Whether `a` sorts before `b`: at the first place where they differ, `a`
/// has the smaller digit. Both have one length.
pub open spec fn digits_sort_before(a: Seq<int>, b: Seq<int>) -> bool {
    exists|k: int| 0 <= k < a.len() && #[trigger] a.take(k) == b.take(k) && a[k] < b[k]
}

/// Whether `a` sorts before `b`: at the first place where they differ, `a`
/// has the smaller character. Both have one length.
pub open spec fn text_sorts_before(a: Seq<char>, b: Seq<char>) -> bool {
    exists|k: int| 0 <= k < a.len() && #[trigger] a.take(k) == b.take(k) && a[k] < b[k]
}

/// Symbols stand in the order of their values.
pub proof fn lemma_symbols_are_ordered(x: int, y: int)
    requires
        0 <= x < 32,
        0 <= y < 32,
    ensures
        x < y <==> symbol_of(x) < symbol_of(y),
        x == y <==> symbol_of(x) == symbol_of(y),
{
}

/// Bytes of one length sort as the numbers that they spell.
pub proof fn lemma_bytes_sort_as_numbers(a: Seq<u8>, b: Seq<u8>)
    requires
        a.len() == b.len(),
    ensures
        bytes_sort_before(a, b) <==> number_of_bytes(a) < number_of_bytes(b),
    decreases a.len(),
{
    if a.len() > 0 {
        let last = a.len() - 1;
        let front_a = a.drop_last();
        let front_b = b.drop_last();
        lemma_bytes_sort_as_numbers(front_a, front_b);
        if bytes_sort_before(a, b) {
            let k = choose|k: int| 0 <= k < a.len() && #[trigger] a.take(k) == b.take(k) && a[k] < b[k];
            if k < last {
                assert(front_a.take(k) =~= a.take(k));
                assert(front_b.take(k) =~= b.take(k));
                assert(front_a[k] < front_b[k]);
                assert(bytes_sort_before(front_a, front_b));
            } else {
                assert(front_a =~= a.take(k));
                assert(front_b =~= b.take(k));
            }
        }
        if number_of_bytes(a) < number_of_bytes(b) {
            if number_of_bytes(front_a) < number_of_bytes(front_b) {
                let k = choose|k: int|
                    0 <= k < front_a.len() && #[trigger] front_a.take(k) == front_b.take(k)
                        && front_a[k] < front_b[k];
                assert(a.take(k) =~= front_a.take(k));
                assert(b.take(k) =~= front_b.take(k));
                assert(a.take(k) == b.take(k) && a[k] < b[k]);
            } else {
                assert(number_of_bytes(front_a) == number_of_bytes(front_b));
                lemma_bytes_of_their_number(front_a);
                lemma_bytes_of_their_number(front_b);
                assert(a.take(last) =~= front_a);
                assert(b.take(last) =~= front_b);
                assert(a.take(last) == b.take(last) && a[last] < b[last]);
            }
        }
    }
}

/// Digits of one length sort as the numbers that they spell.
pub proof fn lemma_digits_sort_as_numbers(a: Seq<int>, b: Seq<int>)
    requires
        a.len() == b.len(),
        are_digits(a),
        are_digits(b),
    ensures
        digits_sort_before(a, b) <==> number_of_digits(a) < number_of_digits(b),
    decreases a.len(),
{
    if a.len() > 0 {
        let last = a.len() - 1;
        let front_a = a.drop_last();
        let front_b = b.drop_last();
        lemma_digits_sort_as_numbers(front_a, front_b);
        lemma_number_of_digits_bound(front_a);
        lemma_number_of_digits_bound(front_b);
        if digits_sort_before(a, b) {
            let k = choose|k: int| 0 <= k < a.len() && #[trigger] a.take(k) == b.take(k) && a[k] < b[k];
            if k < last {
                assert(front_a.take(k) =~= a.take(k));
                assert(front_b.take(k) =~= b.take(k));
                assert(front_a[k] < front_b[k]);
                assert(digits_sort_before(front_a, front_b));
            } else {
                assert(front_a =~= a.take(k));
                assert(front_b =~= b.take(k));
            }
        }
        if number_of_digits(a) < number_of_digits(b) {
            if number_of_digits(front_a) < number_of_digits(front_b) {
                let k = choose|k: int|
                    0 <= k < front_a.len() && #[trigger] front_a.take(k) == front_b.take(k)
                        && front_a[k] < front_b[k];
                assert(a.take(k) =~= front_a.take(k));
                assert(b.take(k) =~= front_b.take(k));
                assert(a.take(k) == b.take(k) && a[k] < b[k]);
            } else {
                assert(number_of_digits(front_a) == number_of_digits(front_b));
                lemma_digits_of_their_number(front_a);
                lemma_digits_of_their_number(front_b);
                assert(a.take(last) =~= front_a);
                assert(b.take(last) =~= front_b);
                assert(a.take(last) == b.take(last) && a[last] < b[last]);
            }
        }
    }
}

/// The canonical texts of sixteen-byte values sort as the values do.
pub proof fn lemma_encoding_keeps_order(a: Seq<u8>, b: Seq<u8>)
    requires
        a.len() == 16,
        b.len() == 16,
    ensures
        text_sorts_before(encoding_of(a), encoding_of(b)) <==> bytes_sort_before(a, b),
{
    let digits_a = digits_of_bytes(a);
    let digits_b = digits_of_bytes(b);
    let text_a = encoding_of(a);
    let text_b = encoding_of(b);
    lemma_bytes_sort_as_numbers(a, b);
    lemma_number_of_bytes_bound(a);
    lemma_number_of_bytes_bound(b);
    lemma_sixteen_bytes_fill_twenty_six_digits();
    lemma_digits_of_number_len(number_of_bytes(a) * 4, 26);
    lemma_digits_of_number_len(number_of_bytes(b) * 4, 26);
    lemma_number_of_its_digits(number_of_bytes(a) * 4, 26);
    lemma_number_of_its_digits(number_of_bytes(b) * 4, 26);
    lemma_digits_sort_as_numbers(digits_a, digits_b);
    assert forall|i: int| 0 <= i < 26 implies (digits_a[i] < digits_b[i] <==> text_a[i] < text_b[i])
        && (digits_a[i] == digits_b[i] <==> text_a[i] == text_b[i]) by {
        lemma_symbols_are_ordered(digits_a[i], digits_b[i]);
    }
    if text_sorts_before(text_a, text_b) {
        let k = choose|k: int|
            0 <= k < text_a.len() && #[trigger] text_a.take(k) == text_b.take(k) && text_a[k]
                < text_b[k];
        assert forall|i: int| 0 <= i < k implies digits_a[i] == digits_b[i] by {
            assert(text_a.take(k)[i] == text_b.take(k)[i]);
        }
        assert(digits_a.take(k) =~= digits_b.take(k));
        assert(digits_sort_before(digits_a, digits_b));
    }
    if digits_sort_before(digits_a, digits_b) {
        let k = choose|k: int|
            0 <= k < digits_a.len() && #[trigger] digits_a.take(k) == digits_b.take(k)
                && digits_a[k] < digits_b[k];
        assert forall|i: int| 0 <= i < k implies text_a[i] == text_b[i] by {
            assert(digits_a.take(k)[i] == digits_b.take(k)[i]);
        }
        assert(text_a.take(k) =~= text_b.take(k));
        assert(text_sorts_before(text_a, text_b));
    }
}

} // verus!
