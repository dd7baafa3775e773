//! Reading an unsigned number from a field that holds it as a string or as a number.

use vstd::prelude::*;
use crate::json::JsonValue;
use crate::text::chars_of;

verus! {

/// The value of `c` as a digit: `0`-`9` stand for 0 to 9, and `a`-`z` or `A`-`Z`
/// for 10 to 35.
pub open spec fn digit_value(c: char) -> Option<nat> {
    if '0' <= c <= '9' {
        Some((c as nat - '0' as nat) as nat)
    } else if 'a' <= c <= 'z' {
        Some((c as nat - 'a' as nat + 10) as nat)
    } else if 'A' <= c <= 'Z' {
        Some((c as nat - 'A' as nat + 10) as nat)
    } else {
        None
    }
}

/// The number that `digits` spell in base `radix`, most significant digit first;
/// `None` if one of them is no digit of that base.
pub open spec fn digits_value(digits: Seq<char>, radix: nat) -> Option<nat>
    decreases digits.len(),
{
    if digits.len() == 0 {
        Some(0nat)
    } else {
        match (digits_value(digits.drop_last(), radix), digit_value(digits.last())) {
            (Some(high), Some(low)) => if low < radix {
                Some(high * radix + low)
            } else {
                None
            },
            _ => None,
        }
    }
}

/// The number that `text` spells in base `radix`: an optional `+`, then one or
/// more digits of that base and nothing else.
pub open spec fn number_in_radix(text: Seq<char>, radix: nat) -> Option<nat> {
    let digits = if text.len() > 0 && text[0] == '+' {
        text.skip(1)
    } else {
        text
    };
    if digits.len() == 0 {
        None
    } else {
        digits_value(digits, radix)
    }
}

/// What a field yields as an unsigned number: a string is read in base `radix`, a
/// number is taken as it is, and the result must fit the machine word.
pub open spec fn unsigned_of(value: JsonValue, radix: nat) -> Option<usize> {
    match value {
        JsonValue::Text(s) => match number_in_radix(s@, radix) {
            Some(n) => if n <= usize::MAX {
                Some(n as usize)
            } else {
                None
            },
            None => None,
        },
        JsonValue::Unsigned(n) => if n <= usize::MAX {
            Some(n as usize)
        } else {
            None
        },
        JsonValue::Other(_) => None,
    }
}

/// A failed attempt to read a number from a field.
#[derive(Debug, Clone, Copy, PartialEq, Eq, Structural)]
pub struct NumberError;

/// A number never falls when digits are appended to it.
proof fn lemma_digits_value_grows(digits: Seq<char>, radix: nat, k: int)
    requires
        0 <= k <= digits.len(),
        digits_value(digits, radix) is Some,
    ensures
        digits_value(digits.take(k), radix) is Some,
        digits_value(digits.take(k), radix)->0 <= digits_value(digits, radix)->0,
    decreases digits.len() - k,
{
    if k == digits.len() {
        assert(digits.take(k) =~= digits);
    } else {
        let shorter = digits.drop_last();
        assert(shorter.take(k) =~= digits.take(k));
        lemma_digits_value_grows(shorter, radix, k);
        let high = digits_value(shorter, radix)->0;
        let low = digit_value(digits.last())->0;
        assert(high <= high * radix + low) by (nonlinear_arith)
            requires
                radix > low,
        ;
    }
}

/// The digit that `c` stands for in base `radix`, if it is one.
fn digit_of(c: char, radix: u32) -> (d: Option<u32>)
    ensures
        d matches Some(v) ==> v < radix && digit_value(c) == Some(v as nat),
        d is None ==> (digit_value(c) matches Some(v) ==> v >= radix),
{
    let v: u32 = if '0' <= c && c <= '9' {
        c as u32 - '0' as u32
    } else if 'a' <= c && c <= 'z' {
        c as u32 - 'a' as u32 + 10
    } else if 'A' <= c && c <= 'Z' {
        c as u32 - 'A' as u32 + 10
    } else {
        return None;
    };
    if v < radix {
        Some(v)
    } else {
        None
    }
}

/// Reads `text` as an unsigned number in base `radix`.
///
/// The text is an optional `+` followed by one or more digits of the base. The
/// result is `None` if the text has another form, or if the number does not fit
/// the machine word.
pub fn parse_radix(text: &str, radix: u32) -> (r: Option<usize>)
    requires
        2 <= radix <= 36,
    ensures
        r == match number_in_radix(text@, radix as nat) {
            Some(n) => if n <= usize::MAX {
                Some(n as usize)
            } else {
                None
            },
            None => None,
        },
{
    let chars = chars_of(text);
    let start: usize = if chars.len() > 0 && chars[0] == '+' {
        1
    } else {
        0
    };
    if start == chars.len() {
        return None;
    }
    let ghost digits = chars@.skip(start as int);
    let mut acc: usize = 0;
    let mut i: usize = start;
    assert(digits.take(0) =~= Seq::<char>::empty());
    assert(chars@.skip(0) =~= chars@);
    assert(number_in_radix(text@, radix as nat) == digits_value(digits, radix as nat));
    while i < chars.len()
        invariant
            start <= i <= chars.len(),
            2 <= radix <= 36,
            digits == chars@.skip(start as int),
            number_in_radix(text@, radix as nat) == digits_value(digits, radix as nat),
            digits_value(digits.take(i - start), radix as nat) == Some(acc as nat),
        decreases chars.len() - i,
    {
        let ghost shorter = digits.take(i - start);
        let ghost longer = digits.take(i - start + 1);
        proof {
            assert(longer.drop_last() =~= shorter);
            assert(longer.last() == chars@[i as int]);
            if digits_value(digits, radix as nat) is Some {
                lemma_digits_value_grows(digits, radix as nat, i - start + 1);
            }
        }
        let d = match digit_of(chars[i], radix) {
            Some(d) => d,
            None => {
                return None;
            },
        };
        let shifted = match acc.checked_mul(radix as usize) {
            Some(v) => v,
            None => {
                return None;
            },
        };
        acc = match shifted.checked_add(d as usize) {
            Some(v) => v,
            None => {
                return None;
            },
        };
        i += 1;
    }
    assert(digits.take(i - start) =~= digits);
    Some(acc)
}

/// Reads an unsigned number from a field that holds it as a string of octal
/// digits or as a number.
///
/// A string is read in base 8; a number is taken as it is. Fails if the string
/// is no octal number, if the value does not fit the machine word, or if the
/// field holds neither a string nor a non-negative whole number.
pub fn deserialize_number_from_octal_str(value: &JsonValue) -> (r: Result<usize, NumberError>)
    ensures
        r == match unsigned_of(*value, 8) {
            Some(n) => Ok::<usize, NumberError>(n),
            None => Err(NumberError),
        },
{
    number_from_field(value, 8)
}

/// Reads an unsigned number from a field that holds it as a string of decimal
/// digits or as a number.
pub fn deserialize_number_from_string(value: &JsonValue) -> (r: Result<usize, NumberError>)
    ensures
        r == match unsigned_of(*value, 10) {
            Some(n) => Ok::<usize, NumberError>(n),
            None => Err(NumberError),
        },
{
    number_from_field(value, 10)
}

/// Reads an unsigned number from a field, a string in base `radix`.
fn number_from_field(value: &JsonValue, radix: u32) -> (r: Result<usize, NumberError>)
    requires
        2 <= radix <= 36,
    ensures
        r == match unsigned_of(*value, radix as nat) {
            Some(n) => Ok::<usize, NumberError>(n),
            None => Err(NumberError),
        },
{
    match value {
        JsonValue::Text(s) => match parse_radix(s.as_str(), radix) {
            Some(n) => Ok(n),
            None => Err(NumberError),
        },
        JsonValue::Unsigned(n) => if *n <= usize::MAX as u64 {
            Ok(*n as usize)
        } else {
            Err(NumberError)
        },
        JsonValue::Other(_) => Err(NumberError),
    }
}

} // verus!
