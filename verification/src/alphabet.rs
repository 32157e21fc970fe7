//! The Crockford alphabet: which character stands for which five-bit value.

use vstd::prelude::*;

verus! {

/// The canonical character for `value`: the ten digits, then the upper-case
/// letters without `I`, `L`, `O` and `U`.
pub open spec fn symbol_of(value: int) -> char
    recommends
        0 <= value < 32,
{
    if value < 10 {
        ('0' as int + value) as char
    } else if value < 18 {
        ('A' as int + value - 10) as char
    } else if value < 20 {
        ('J' as int + value - 18) as char
    } else if value < 22 {
        ('M' as int + value - 20) as char
    } else if value < 27 {
        ('P' as int + value - 22) as char
    } else {
        ('V' as int + value - 27) as char
    }
}

/// `c` with an ASCII lower-case letter replaced by its upper-case form.
pub open spec fn ascii_upper(c: char) -> char {
    if 'a' <= c <= 'z' {
        (c as int - 32) as char
    } else {
        c
    }
}

/// `c` with an ASCII upper-case letter replaced by its lower-case form.
pub open spec fn ascii_lower(c: char) -> char {
    if 'A' <= c <= 'Z' {
        (c as int + 32) as char
    } else {
        c
    }
}

/// The value that `c` is read as, if it is read at all.
///
/// Letters count in either case. `O` is read as zero, `I` and `L` as one.
/// `U` and every character outside the letters and digits has no value.
pub open spec fn digit_value(c: char) -> Option<int> {
    let u = ascii_upper(c);
    if '0' <= u <= '9' {
        Some(u as int - '0' as int)
    } else if u == 'O' {
        Some(0)
    } else if u == 'I' || u == 'L' {
        Some(1)
    } else if 'A' <= u <= 'H' {
        Some(u as int - 'A' as int + 10)
    } else if 'J' <= u <= 'K' {
        Some(u as int - 'J' as int + 18)
    } else if 'M' <= u <= 'N' {
        Some(u as int - 'M' as int + 20)
    } else if 'P' <= u <= 'T' {
        Some(u as int - 'P' as int + 22)
    } else if 'V' <= u <= 'Z' {
        Some(u as int - 'V' as int + 27)
    } else {
        None
    }
}

/// Whether `c` is one of the thirty-two canonical symbols.
pub open spec fn is_symbol(c: char) -> bool {
    exists|value: int| 0 <= value < 32 && symbol_of(value) == c
}

/// Every value below thirty-two has a symbol, and the symbol is read back as
/// that value.
pub proof fn lemma_symbol_value(value: int)
    requires
        0 <= value < 32,
    ensures
        digit_value(symbol_of(value)) == Some(value),
        is_symbol(symbol_of(value)),
        symbol_of(value) != '-',
        ascii_upper(symbol_of(value)) == symbol_of(value),
{
}

/// A character that is read as a value is read as one below thirty-two.
pub proof fn lemma_digit_value_range(c: char)
    ensures
        digit_value(c) matches Some(value) ==> 0 <= value < 32,
        c == '-' ==> digit_value(c) is None,
{
}

/// Case does not matter to the value of a character.
pub proof fn lemma_case_folds(c: char)
    ensures
        digit_value(ascii_lower(c)) == digit_value(c),
        digit_value(ascii_upper(c)) == digit_value(c),
        (ascii_lower(c) == '-') == (c == '-'),
{
}

/// The value of the byte `b` taken as a character, if it has one.
pub fn digit_of_byte(b: u8) -> (r: Option<u8>)
    ensures
        match r {
            Some(value) => digit_value(b as char) == Some(value as int),
            None => digit_value(b as char) is None,
        },
{
    let u: u8 = if ('a' as u8) <= b && b <= ('z' as u8) {
        b - 32
    } else {
        b
    };
    if ('0' as u8) <= u && u <= ('9' as u8) {
        Some(u - ('0' as u8))
    } else if u == ('O' as u8) {
        Some(0)
    } else if u == ('I' as u8) || u == ('L' as u8) {
        Some(1)
    } else if ('A' as u8) <= u && u <= ('H' as u8) {
        Some(u - ('A' as u8) + 10)
    } else if ('J' as u8) <= u && u <= ('K' as u8) {
        Some(u - ('J' as u8) + 18)
    } else if ('M' as u8) <= u && u <= ('N' as u8) {
        Some(u - ('M' as u8) + 20)
    } else if ('P' as u8) <= u && u <= ('T' as u8) {
        Some(u - ('P' as u8) + 22)
    } else if ('V' as u8) <= u && u <= ('Z' as u8) {
        Some(u - ('V' as u8) + 27)
    } else {
        None
    }
}

} // verus!
