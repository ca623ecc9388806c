//! Messages of the form `name:value` in a buffer of fixed size.

use vstd::prelude::*;
use vstd::string::StringSliceAdditionalSpecFns;
use crate::decimal::{format_integer, signed_decimal};

verus! {

/// The number of bytes that a message buffer holds at most.
pub const MESSAGE_MAX_LEN: usize = 32;

/// Why a value could not be written into a message buffer.
#[derive(Debug, Clone, Copy, PartialEq, Eq, Structural)]
pub enum EncodingError {
    /// The value could not be formatted
    Fmt,
    /// The message buffer wasn't big enough
    CapacityError,
}

/// `arrayvec::ArrayString`, a string of fixed capacity that is stored in
/// place. Nothing inside it is visible here.
#[verifier::external_type_specification]
#[verifier::external_body]
pub struct ExArrayString<const CAP: usize>(arrayvec::ArrayString<CAP>);

/// The bytes of the text that a message buffer holds.
pub uninterp spec fn message_bytes(buffer: arrayvec::ArrayString<32>) -> Seq<u8>;

/// Appends `text` to the buffer if it fits, and says whether it did.
///
/// Calls `arrayvec::ArrayString::try_push_str`. Believed of it, not proved:
/// that the text is appended whole where its bytes fit in what is left of
/// the 32 bytes, and that the buffer is left as it was and an error is
/// returned where they do not.
#[verifier::external_body]
fn try_push_str(buffer: &mut arrayvec::ArrayString<32>, text: &str) -> (pushed: bool)
    ensures
        pushed == (message_bytes(*old(buffer)).len() + text.spec_bytes().len() <= MESSAGE_MAX_LEN),
        message_bytes(*final(buffer)) == if pushed {
            message_bytes(*old(buffer)) + text.spec_bytes()
        } else {
            message_bytes(*old(buffer))
        },
{
    buffer.try_push_str(text).is_ok()
}

/// The message that reports `val` under `name`: the name, a colon, and the
/// value in base ten.
pub open spec fn encoded_i32(name: Seq<u8>, val: i32) -> Seq<u8> {
    name + ":".spec_bytes() + signed_decimal(val as int)
}

/// What is appended to a buffer that holds `held` bytes when the message
/// `name`, colon, `value` is written to it: the whole message where it fits,
/// and otherwise the parts that fit, in their order, up to the first that
/// does not.
pub open spec fn appended(held: nat, name: Seq<u8>, value: Seq<u8>) -> Seq<u8> {
    let colon = ":".spec_bytes();
    if held + name.len() > MESSAGE_MAX_LEN {
        Seq::empty()
    } else if held + name.len() + colon.len() > MESSAGE_MAX_LEN {
        name
    } else if held + name.len() + colon.len() + value.len() > MESSAGE_MAX_LEN {
        name + colon
    } else {
        name + colon + value
    }
}

/// Appends the message `name:val` to `buffer`. Fails with `CapacityError`
/// where the message does not fit in what is left of the buffer; the parts
/// written before the one that did not fit stay in the buffer.
pub fn encode_i32(name: &str, val: i32, buffer: &mut arrayvec::ArrayString<32>) -> (result: Result<
    (),
    EncodingError,
>)
    ensures
        result == if message_bytes(*old(buffer)).len() + encoded_i32(name.spec_bytes(), val).len()
            <= MESSAGE_MAX_LEN {
            Ok::<(), EncodingError>(())
        } else {
            Err(EncodingError::CapacityError)
        },
        message_bytes(*final(buffer)) == message_bytes(*old(buffer)) + appended(
            message_bytes(*old(buffer)).len(),
            name.spec_bytes(),
            signed_decimal(val as int),
        ),
        result is Ok ==> message_bytes(*final(buffer)) == message_bytes(*old(buffer)) + encoded_i32(
            name.spec_bytes(),
            val,
        ),
{
    let ghost held = message_bytes(*buffer);
    let val_str = format_integer(val as i64);
    if !try_push_str(buffer, name) {
        assert(held + Seq::<u8>::empty() =~= held);
        return Err(EncodingError::CapacityError);
    }
    if !try_push_str(buffer, ":") {
        return Err(EncodingError::CapacityError);
    }
    if !try_push_str(buffer, val_str.as_str()) {
        assert(held + name.spec_bytes() + ":".spec_bytes() =~= held + (name.spec_bytes()
            + ":".spec_bytes()));
        return Err(EncodingError::CapacityError);
    }
    assert(held + name.spec_bytes() + ":".spec_bytes() + signed_decimal(val as int) =~= held
        + encoded_i32(name.spec_bytes(), val));
    Ok(())
}

} // verus!
