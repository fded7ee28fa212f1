//! What holds of numbers and texts: what is written is read back, and trimming finds the text
//! between the white space.
use vstd::prelude::*;
use vstd::utf8::{encode_utf8, encode_utf8_decode_utf8, encode_utf8_valid_utf8, valid_utf8};

use crate::text::{
    all_digits, decimal, digit_char, digits_value, is_white_space, lossy_text, optional_text,
    parsed_i32, signed_decimal, trimmed,
};
use crate::svn::output_text;

verus! {

// ---------------------------------------------------------------------------
// Numbers
// ---------------------------------------------------------------------------

/// No digits stand for zero, and one more digit behind others shifts them by one place.
pub proof fn law_digits_have_places(digits: Seq<char>, digit: char)
    requires
        '0' <= digit <= '9',
    ensures
        digits_value(Seq::<char>::empty()) == 0,
        digits_value(digits.push(digit)) == 10 * digits_value(digits) + (digit as int - 48),
{
    assert(digits.push(digit).drop_last() =~= digits);
}

/// The characters of a text are digits if and only if each of them is one of the ten.
pub proof fn law_digits_are_the_ten(text: Seq<char>)
    ensures
        all_digits(text) <==> forall|i: int|
            0 <= i < text.len() ==> 48 <= (#[trigger] text[i]) as int <= 57,
{
}

/// A number in decimal is a row of digits that stands for the number and has no zero in front,
/// except that zero itself is one zero.
pub proof fn law_decimal_stands_for_its_number(n: nat)
    ensures
        decimal(n).len() > 0,
        forall|i: int| 0 <= i < decimal(n).len() ==> '0' <= #[trigger] decimal(n)[i] <= '9',
        digits_value(decimal(n)) == n,
        n == 0 ==> decimal(n) == seq!['0'],
        n > 0 ==> decimal(n)[0] != '0',
    decreases n,
{
    let last = digit_char(n % 10);
    assert(last as int == 48 + n % 10);
    if n < 10 {
        assert(decimal(n) =~= Seq::<char>::empty().push(last));
        law_digits_have_places(Seq::empty(), last);
    } else {
        law_decimal_stands_for_its_number(n / 10);
        law_digits_have_places(decimal(n / 10), last);
    }
}

/// A row of digits, with or without a sign in front, is read as the number that it stands for if
/// that number fits, and not at all if it does not.
pub proof fn law_digits_are_read(digits: Seq<char>)
    requires
        digits.len() > 0,
        forall|i: int| 0 <= i < digits.len() ==> '0' <= #[trigger] digits[i] <= '9',
    ensures
        digits_value(digits) <= 2147483647 ==> parsed_i32(digits) == Some(
            digits_value(digits) as i32,
        ),
        digits_value(digits) > 2147483647 ==> parsed_i32(digits) is None,
        parsed_i32(seq!['+'] + digits) == parsed_i32(digits),
        digits_value(digits) <= 2147483648 ==> parsed_i32(seq!['-'] + digits) == Some(
            (-digits_value(digits)) as i32,
        ),
        digits_value(digits) > 2147483648 ==> parsed_i32(seq!['-'] + digits) is None,
{
    assert(digits[0] >= '0');
    assert((seq!['+'] + digits).skip(1) =~= digits);
    assert((seq!['-'] + digits).skip(1) =~= digits);
}

/// Nothing but digits, with or without a sign in front, is read as a number: a text that is read
/// has at least one digit, and a character that is none can only be a sign at the front.
pub proof fn law_only_digits_are_read(text: Seq<char>)
    requires
        parsed_i32(text) is Some,
    ensures
        text.len() > 0,
        '0' <= text.last() <= '9',
        forall|i: int| 0 < i < text.len() ==> '0' <= #[trigger] text[i] <= '9',
        '0' <= text[0] <= '9' || text[0] == '+' || text[0] == '-',
{
    if text.len() > 0 && (text[0] == '+' || text[0] == '-') {
        let digits = text.skip(1);
        assert forall|i: int| 0 < i < text.len() implies '0' <= #[trigger] text[i] <= '9' by {
            assert(digits[i - 1] == text[i]);
        }
    }
}

/// A number that is written is read back.
pub proof fn law_number_is_read_back(n: i32)
    ensures
        parsed_i32(signed_decimal(n as int)) == Some(n),
        n < 0 ==> signed_decimal(n as int) == seq!['-'] + decimal((-n) as nat),
        n >= 0 ==> signed_decimal(n as int) == decimal(n as nat),
{
    let size = if n < 0 {
        (-n) as nat
    } else {
        n as nat
    };
    law_decimal_stands_for_its_number(size);
    law_digits_are_read(decimal(size));
}

// ---------------------------------------------------------------------------
// Texts
// ---------------------------------------------------------------------------

/// Among the ASCII characters the blank and the control characters from tab to carriage return
/// are white space, and no others.
pub proof fn law_ascii_white_space(c: char)
    requires
        (c as int) < 128,
    ensures
        is_white_space(c) <==> c as int == 32 || 9 <= c as int <= 13,
{
}

/// All characters of a text are white space.
pub open spec fn is_blank(text: Seq<char>) -> bool {
    forall|i: int| 0 <= i < text.len() ==> is_white_space(#[trigger] text[i])
}

/// A text has no white space at its two ends.
pub open spec fn has_bare_ends(text: Seq<char>) -> bool {
    text.len() > 0 ==> !is_white_space(text[0]) && !is_white_space(text[text.len() - 1])
}

/// What stands between white space is found by trimming, whole and unchanged.
pub proof fn law_trimming_finds_the_text(before: Seq<char>, text: Seq<char>, after: Seq<char>)
    requires
        is_blank(before),
        is_blank(after),
        has_bare_ends(text),
    ensures
        trimmed(before + text + after) == text,
    decreases before.len() + after.len(),
{
    let all = before + text + after;
    if before.len() > 0 {
        let rest = before.drop_first();
        assert(all.first() == before[0]);
        assert(all.drop_first() =~= rest + text + after);
        assert forall|i: int| 0 <= i < rest.len() implies is_white_space(#[trigger] rest[i]) by {
            assert(rest[i] == before[i + 1]);
        }
        law_trimming_finds_the_text(rest, text, after);
    } else if after.len() > 0 {
        let rest = after.drop_last();
        assert(all.last() == after[after.len() - 1]);
        assert(all.drop_last() =~= before + text + rest);
        assert forall|i: int| 0 <= i < rest.len() implies is_white_space(#[trigger] rest[i]) by {
            assert(rest[i] == after[i]);
        }
        law_trimming_finds_the_text(before, text, rest);
        if text.len() == 0 {
            let shorter = after.drop_first();
            assert(all.first() == after[0]);
            assert(all.drop_first() =~= before + text + shorter);
            assert forall|i: int| 0 <= i < shorter.len() implies is_white_space(
                #[trigger] shorter[i],
            ) by {
                assert(shorter[i] == after[i + 1]);
            }
            law_trimming_finds_the_text(before, text, shorter);
        }
    } else {
        assert(all =~= text);
    }
}

/// A text that is written in UTF-8 is read back. Bytes that are no UTF-8 are read as the lossy
/// decoding of them.
pub proof fn law_output_is_read_back(text: Seq<char>, bytes: Seq<u8>)
    ensures
        output_text(encode_utf8(text)) == text,
        !valid_utf8(bytes) ==> output_text(bytes) == lossy_text(bytes),
{
    encode_utf8_valid_utf8(text);
    encode_utf8_decode_utf8(text);
}

/// Of an optional text nothing is lost.
pub proof fn law_optional_text_holds_the_text(text: String)
    ensures
        optional_text(Some(text)) == Some(text@),
        optional_text(None) is None,
{
}

} // verus!
