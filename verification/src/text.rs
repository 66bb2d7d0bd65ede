//! Texts that arrive as bytes: UTF-8 validation and zero-terminated fields.

use crate::error::CziError;
use vstd::prelude::*;
use vstd::string::StringSliceAdditionalSpecFns;
use vstd::utf8::valid_utf8;

verus! {

/// Reads bytes as text. Stands for `core::str::from_utf8`, which accepts
/// exactly the byte sequences that are valid UTF-8 and hands back a text
/// made of the very same bytes.
#[verifier::external_body]
pub(crate) fn str_of_utf8(bytes: &[u8]) -> (text: Option<&str>)
    ensures
        text is Some <==> valid_utf8(bytes@),
        text matches Some(s) ==> s.spec_bytes() == bytes@,
{
    core::str::from_utf8(bytes).ok()
}

/// What reading bytes as text gives: the bytes themselves where they are
/// valid UTF-8, else `InvalidUtf8`.
pub open spec fn utf8_text(bytes: Seq<u8>) -> Result<Seq<u8>, CziError> {
    if valid_utf8(bytes) {
        Ok(bytes)
    } else {
        Err(CziError::InvalidUtf8)
    }
}

/// Whether `text` is the outcome that `utf8_text` states for `bytes`.
pub open spec fn is_utf8_text_of(text: Result<&str, CziError>, bytes: Seq<u8>) -> bool {
    match text {
        Ok(s) => utf8_text(bytes) == Ok::<Seq<u8>, CziError>(s.spec_bytes()),
        Err(e) => utf8_text(bytes) == Err::<Seq<u8>, CziError>(e),
    }
}

/// The bytes as a text, or `InvalidUtf8` where they are no valid UTF-8.
pub fn text_from_utf8(bytes: &[u8]) -> (text: Result<&str, CziError>)
    ensures
        is_utf8_text_of(text, bytes@),
{
    match str_of_utf8(bytes) {
        Some(s) => Ok(s),
        None => Err(CziError::InvalidUtf8),
    }
}

/// The place of the first zero byte, if there is one.
pub open spec fn first_zero(bytes: Seq<u8>) -> Option<int> {
    if exists|i: int| 0 <= i < bytes.len() && bytes[i] == 0 {
        Some(choose|i: int| is_first_zero(bytes, i))
    } else {
        None
    }
}

/// Whether `i` is the place of the first zero byte.
pub open spec fn is_first_zero(bytes: Seq<u8>, i: int) -> bool {
    &&& 0 <= i < bytes.len()
    &&& bytes[i] == 0
    &&& forall|j: int| 0 <= j < i ==> bytes[j] != 0
}

/// The bytes before the first zero byte: the content of a zero-terminated
/// field. `None` where no byte is zero.
pub open spec fn until_zero(bytes: Seq<u8>) -> Option<Seq<u8>> {
    match first_zero(bytes) {
        Some(end) => Some(bytes.subrange(0, end)),
        None => None,
    }
}

/// The first zero byte is at `i` if and only if `i` is a zero byte with none
/// before it.
pub proof fn lemma_first_zero(bytes: Seq<u8>, i: int)
    requires
        is_first_zero(bytes, i),
    ensures
        first_zero(bytes) == Some(i),
{
    let found = choose|k: int| is_first_zero(bytes, k);
    assert(is_first_zero(bytes, found));
    if found < i {
        assert(bytes[found] != 0);
    }
    if i < found {
        assert(bytes[i] != 0);
    }
}

/// How many bytes stand before the first zero byte, or `None` where no byte
/// is zero.
pub fn terminator_position(bytes: &[u8]) -> (end: Option<usize>)
    ensures
        match end {
            Some(i) => first_zero(bytes@) == Some(i as int) && is_first_zero(bytes@, i as int),
            None => first_zero(bytes@) is None,
        },
{
    let mut i: usize = 0;
    while i < bytes.len()
        invariant
            i <= bytes@.len(),
            forall|j: int| 0 <= j < i ==> bytes@[j] != 0,
        decreases bytes@.len() - i,
    {
        if bytes[i] == 0 {
            proof {
                lemma_first_zero(bytes@, i as int);
            }
            return Some(i);
        }
        i = i + 1;
    }
    None
}

/// What reading a zero-terminated field gives: the bytes before the first
/// zero where they are valid UTF-8, `MissingTerminator` where no byte is
/// zero, and `InvalidUtf8` where the bytes before the zero are no text.
pub open spec fn terminated_text(field: Seq<u8>) -> Result<Seq<u8>, CziError> {
    match until_zero(field) {
        None => Err(CziError::MissingTerminator),
        Some(content) => utf8_text(content),
    }
}

/// The text of a zero-terminated field.
pub fn text_until_zero(field: &[u8]) -> (text: Result<&str, CziError>)
    ensures
        match text {
            Ok(s) => terminated_text(field@) == Ok::<Seq<u8>, CziError>(s.spec_bytes()),
            Err(e) => terminated_text(field@) == Err::<Seq<u8>, CziError>(e),
        },
{
    match terminator_position(field) {
        None => Err(CziError::MissingTerminator),
        Some(end) => {
            let content = vstd::slice::slice_subrange(field, 0, end);
            text_from_utf8(content)
        },
    }
}

/// The character of a decimal digit.
pub open spec fn digit_chars(digit: int) -> Seq<char> {
    if digit == 0 {
        "0"@
    } else if digit == 1 {
        "1"@
    } else if digit == 2 {
        "2"@
    } else if digit == 3 {
        "3"@
    } else if digit == 4 {
        "4"@
    } else if digit == 5 {
        "5"@
    } else if digit == 6 {
        "6"@
    } else if digit == 7 {
        "7"@
    } else if digit == 8 {
        "8"@
    } else {
        "9"@
    }
}

/// A natural number in decimal digits, without leading zeros.
pub open spec fn decimal_chars(number: nat) -> Seq<char>
    decreases number,
{
    if number < 10 {
        digit_chars(number as int)
    } else {
        decimal_chars(number / 10) + digit_chars((number % 10) as int)
    }
}

/// A whole number in decimal digits, with a minus sign in front of it
/// where it is below zero.
pub open spec fn number_chars(number: int) -> Seq<char> {
    if number < 0 {
        "-"@ + decimal_chars((-number) as nat)
    } else {
        decimal_chars(number as nat)
    }
}

/// The text of a decimal digit.
fn digit_text(digit: u64) -> (text: &'static str)
    requires
        digit < 10,
    ensures
        text@ == digit_chars(digit as int),
{
    if digit == 0 {
        "0"
    } else if digit == 1 {
        "1"
    } else if digit == 2 {
        "2"
    } else if digit == 3 {
        "3"
    } else if digit == 4 {
        "4"
    } else if digit == 5 {
        "5"
    } else if digit == 6 {
        "6"
    } else if digit == 7 {
        "7"
    } else if digit == 8 {
        "8"
    } else {
        "9"
    }
}

/// Appends a natural number in decimal digits to a text.
pub fn append_decimal(text: &mut String, number: u64)
    ensures
        final(text)@ == old(text)@ + decimal_chars(number as nat),
    decreases number,
{
    if number >= 10 {
        append_decimal(text, number / 10);
    }
    let ghost before = text@;
    text.append(digit_text(number % 10));
    assert(text@ =~= old(text)@ + decimal_chars(number as nat));
}

/// Appends a whole number in decimal digits to a text.
pub fn append_number(text: &mut String, number: i64)
    ensures
        final(text)@ == old(text)@ + number_chars(number as int),
{
    if number < 0 {
        text.append("-");
        let magnitude: u64 = ((-(number + 1)) as u64) + 1;
        append_decimal(text, magnitude);
        assert(text@ =~= old(text)@ + number_chars(number as int));
    } else {
        append_decimal(text, number as u64);
    }
}

} // verus!
