//! Reading integers written in text, as the standard library's integer parsers do.
use vstd::prelude::*;
use crate::text::{digit_char, spec_digits};

verus! {

/// The value of `c` as a digit of `radix` (`0`-`9`, then letters of either case), if it is one.
pub open spec fn digit_value(c: char, radix: nat) -> Option<nat> {
    let value: int = if '0' <= c && c <= '9' {
        c as int - '0' as int
    } else if 'a' <= c && c <= 'z' {
        c as int - 'a' as int + 10
    } else if 'A' <= c && c <= 'Z' {
        c as int - 'A' as int + 10
    } else {
        radix as int
    };
    if 0 <= value < radix {
        Some(value as nat)
    } else {
        None
    }
}

/// Every character is a digit of `radix`.
pub open spec fn all_digits(text: Seq<char>, radix: nat) -> bool {
    forall|i: int| 0 <= i < text.len() ==> #[trigger] digit_value(text[i], radix) is Some
}

/// The number the digits of `text` spell in `radix`, most significant first.
pub open spec fn radix_value(text: Seq<char>, radix: nat) -> nat
    decreases text.len(),
{
    if text.len() == 0 {
        0
    } else {
        radix_value(text.drop_last(), radix) * radix + match digit_value(text.last(), radix) {
            Some(digit) => digit,
            None => 0,
        }
    }
}

/// An unsigned integer as the standard library reads it: an optional `+`, then at least one
/// digit, for a value of at most `maximum`.
pub open spec fn unsigned_reading(text: Seq<char>, radix: nat, maximum: nat) -> Option<nat> {
    let digits = if text.len() > 0 && text[0] == '+' {
        text.skip(1)
    } else {
        text
    };
    if digits.len() > 0 && all_digits(digits, radix) && radix_value(digits, radix) <= maximum {
        Some(radix_value(digits, radix))
    } else {
        None
    }
}

/// A signed integer as the standard library reads it: an optional `+` or `-`, then at least one
/// digit, for a value between `minimum` and `maximum`.
pub open spec fn signed_reading(text: Seq<char>, radix: nat, minimum: int, maximum: int) -> Option<int> {
    let negative = text.len() > 0 && text[0] == '-';
    let digits = if text.len() > 0 && (text[0] == '+' || text[0] == '-') {
        text.skip(1)
    } else {
        text
    };
    let magnitude = radix_value(digits, radix) as int;
    let value = if negative {
        -magnitude
    } else {
        magnitude
    };
    if digits.len() > 0 && all_digits(digits, radix) && minimum <= value <= maximum {
        Some(value)
    } else {
        None
    }
}

/// Reads a `u64` through `<u64 as FromStr>::from_str`, keeping the error's text.
///
/// The contract states when the standard library accepts the text and the value it reads, as
/// its documentation gives them; it says nothing of the error's wording.
#[verifier::external_body]
pub(crate) fn parse_u64_text(text: &str) -> (result: Result<u64, String>)
    ensures
        match unsigned_reading(text@, 10, u64::MAX as nat) {
            Some(value) => result == Ok::<u64, String>(value as u64),
            None => result is Err,
        },
{
    text.parse::<u64>().map_err(|error| error.to_string())
}

/// Reads a `usize` through `<usize as FromStr>::from_str`, keeping the error's text.
///
/// The contract states when the standard library accepts the text and the value it reads, as
/// its documentation gives them; it says nothing of the error's wording.
#[verifier::external_body]
pub(crate) fn parse_usize_text(text: &str) -> (result: Result<usize, String>)
    ensures
        match unsigned_reading(text@, 10, usize::MAX as nat) {
            Some(value) => result == Ok::<usize, String>(value as usize),
            None => result is Err,
        },
{
    text.parse::<usize>().map_err(|error| error.to_string())
}

/// Reads an `isize` through `<isize as FromStr>::from_str`, keeping the error's text.
///
/// The contract states when the standard library accepts the text and the value it reads, as
/// its documentation gives them; it says nothing of the error's wording.
#[verifier::external_body]
pub(crate) fn parse_isize_text(text: &str) -> (result: Result<isize, String>)
    ensures
        match signed_reading(text@, 10, isize::MIN as int, isize::MAX as int) {
            Some(value) => result == Ok::<isize, String>(value as isize),
            None => result is Err,
        },
{
    text.parse::<isize>().map_err(|error| error.to_string())
}

/// Reads an `isize` in base 16 through `isize::from_str_radix`, keeping the error's text.
///
/// The contract states when the standard library accepts the text and the value it reads, as
/// its documentation gives them; it says nothing of the error's wording.
#[verifier::external_body]
pub(crate) fn parse_isize_hex(text: &str) -> (result: Result<isize, String>)
    ensures
        match signed_reading(text@, 16, isize::MIN as int, isize::MAX as int) {
            Some(value) => result == Ok::<isize, String>(value as isize),
            None => result is Err,
        },
{
    isize::from_str_radix(text, 16).map_err(|error| error.to_string())
}

/// The decimal digits that `spec_digits` writes for `value` read back as `value`, and the first
/// of them is a digit.
pub proof fn lemma_decimal_digits_read_back(value: nat)
    ensures
        spec_digits(value, 10).len() > 0,
        all_digits(spec_digits(value, 10), 10),
        radix_value(spec_digits(value, 10), 10) == value,
        '0' <= spec_digits(value, 10)[0] <= '9',
    decreases value,
{
    let text = spec_digits(value, 10);
    if value < 10 {
        assert(text == seq![digit_char(value % 16)]);
        assert(digit_value(text[0], 10) == Some(value));
        assert(text.drop_last() =~= Seq::<char>::empty());
        assert(text.last() == text[0]);
        assert(radix_value(text.drop_last(), 10) == 0);
        assert(radix_value(text, 10) == radix_value(text.drop_last(), 10) * 10 + value);
    } else {
        lemma_decimal_digits_read_back(value / 10);
        let head = spec_digits(value / 10, 10);
        assert(text == head.push(digit_char(value % 10)));
        assert(digit_value(digit_char(value % 10), 10) == Some(value % 10));
        assert(text.drop_last() =~= head);
        assert forall|i: int| 0 <= i < text.len() implies #[trigger] digit_value(text[i], 10) is Some by {
            if i < head.len() {
                assert(text[i] == head[i]);
            }
        }
        assert(text[0] == head[0]);
        assert(text.last() == digit_char(value % 10));
        assert(radix_value(text, 10) == radix_value(head, 10) * 10 + value % 10);
        assert(value == (value / 10) * 10 + value % 10);
    }
}

} // verus!
