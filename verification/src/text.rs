//! The texts that describe why a value was refused.

use vstd::prelude::*;
use vstd::string::StringExecFns;

use crate::mailbox::MailboxOtherError;
use crate::strings::ValidationError;

verus! {

/// The character of a hexadecimal or decimal digit, lower case.
pub open spec fn digit_char(d: u8) -> char {
    if d == 0 { '0' } else if d == 1 { '1' } else if d == 2 { '2' } else if d == 3 { '3' }
    else if d == 4 { '4' } else if d == 5 { '5' } else if d == 6 { '6' } else if d == 7 { '7' }
    else if d == 8 { '8' } else if d == 9 { '9' } else if d == 10 { 'a' } else if d == 11 { 'b' }
    else if d == 12 { 'c' } else if d == 13 { 'd' } else if d == 14 { 'e' } else { 'f' }
}

/// A number in decimal.
pub open spec fn decimal_chars(n: nat) -> Seq<char>
    decreases n,
{
    if n < 10 {
        seq![digit_char(n as u8)]
    } else {
        decimal_chars(n / 10) + seq![digit_char((n % 10) as u8)]
    }
}

/// A byte as two hexadecimal digits.
pub open spec fn hex_chars(b: u8) -> Seq<char> {
    seq![digit_char(b / 16), digit_char(b % 16)]
}

/// The text of a digit.
fn digit_text(d: u8) -> (r: &'static str)
    requires
        d < 16,
    ensures
        r@ == seq![digit_char(d)],
{
    proof {
        reveal_strlit("0");
        reveal_strlit("1");
        reveal_strlit("2");
        reveal_strlit("3");
        reveal_strlit("4");
        reveal_strlit("5");
        reveal_strlit("6");
        reveal_strlit("7");
        reveal_strlit("8");
        reveal_strlit("9");
        reveal_strlit("a");
        reveal_strlit("b");
        reveal_strlit("c");
        reveal_strlit("d");
        reveal_strlit("e");
        reveal_strlit("f");
    }
    if d == 0 { "0" } else if d == 1 { "1" } else if d == 2 { "2" } else if d == 3 { "3" }
    else if d == 4 { "4" } else if d == 5 { "5" } else if d == 6 { "6" } else if d == 7 { "7" }
    else if d == 8 { "8" } else if d == 9 { "9" } else if d == 10 { "a" } else if d == 11 { "b" }
    else if d == 12 { "c" } else if d == 13 { "d" } else if d == 14 { "e" } else { "f" }
}

/// Appends a number in decimal.
fn append_decimal(out: &mut String, n: usize)
    ensures
        final(out)@ == old(out)@ + decimal_chars(n as nat),
    decreases n,
{
    if n >= 10 {
        append_decimal(out, n / 10);
    }
    out.append(digit_text((n % 10) as u8));
}

/// The text that says why a value was refused.
pub open spec fn validation_text(e: ValidationError) -> Seq<char> {
    match e {
        ValidationError::Empty => "Validation failed: Must not be empty"@,
        ValidationError::Invalid => "Validation failed: Invalid value"@,
        ValidationError::InvalidByteAt { byte, at } => "Validation failed: Invalid byte b'\\x"@ + hex_chars(byte)
            + "' at index "@ + decimal_chars(at as nat),
    }
}

impl ValidationError {
    /// The text that says why the value was refused, such as
    /// `Validation failed: Invalid byte b'\x20' at index 3`.
    pub fn message(&self) -> (r: String)
        ensures
            r@ == validation_text(*self),
    {
        match self {
            ValidationError::Empty => String::from_str("Validation failed: Must not be empty"),
            ValidationError::Invalid => String::from_str("Validation failed: Invalid value"),
            ValidationError::InvalidByteAt { byte, at } => {
                let mut out = String::from_str("Validation failed: Invalid byte b'\\x");
                out.append(digit_text(*byte / 16));
                out.append(digit_text(*byte % 16));
                out.append("' at index ");
                append_decimal(&mut out, *at);
                out
            },
        }
    }
}

/// The text that says why a name cannot be a mailbox other than the inbox.
pub open spec fn mailbox_other_text(e: MailboxOtherError) -> Seq<char> {
    match e {
        MailboxOtherError::Literal(v) => validation_text(v),
        MailboxOtherError::Reserved => "Reserved: Please use one of the typed variants"@,
    }
}

impl MailboxOtherError {
    /// The text that says why the name was refused: `Reserved: Please use
    /// one of the typed variants` for any spelling of `INBOX`.
    pub fn message(&self) -> (r: String)
        ensures
            r@ == mailbox_other_text(*self),
    {
        match self {
            MailboxOtherError::Literal(v) => v.message(),
            MailboxOtherError::Reserved => String::from_str("Reserved: Please use one of the typed variants"),
        }
    }
}

} // verus!
