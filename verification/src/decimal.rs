//! Numbers in base ten.

use vstd::prelude::*;

verus! {

/// The ASCII character of the decimal digit `digit`.
pub open spec fn digit_char(digit: nat) -> u8 {
    (48 + digit) as u8
}

/// `value` written in base ten, without leading zeros.
pub open spec fn decimal(value: nat) -> Seq<u8>
    decreases value,
{
    if value < 10 {
        seq![digit_char(value)]
    } else {
        decimal(value / 10).push(digit_char(value % 10))
    }
}

/// `value` written in base ten, with a minus sign in front where it is
/// negative.
pub open spec fn signed_decimal(value: int) -> Seq<u8> {
    if value < 0 {
        seq![45u8] + decimal((-value) as nat)
    } else {
        decimal(value as nat)
    }
}

/// The text of `value` in base ten.
///
/// Calls `itoa::Buffer::format`. Believed of it, not proved: that the text
/// it returns is the usual decimal notation, ASCII digits without leading
/// zeros, after a minus sign where the value is negative.
#[verifier::external_body]
pub(crate) fn format_integer(value: i64) -> (text: String)
    ensures
        vstd::utf8::encode_utf8(text@) == signed_decimal(value as int),
{
    itoa::Buffer::new().format(value).to_owned()
}

} // verus!
