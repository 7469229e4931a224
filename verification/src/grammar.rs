//! Byte classes of the LTSV grammar: the structural delimiter bytes and the
//! alphabets permitted in a label and in a field value.

use vstd::prelude::*;

verus! {

/// Line terminator byte (`\n`).
pub const NEWLINE: u8 = 0x0a;

/// Optional byte before a `NEWLINE` that belongs to the terminator (`\r`).
pub const CARRIAGE_RETURN: u8 = 0x0d;

/// Field delimiter byte (`\t`).
pub const TAB: u8 = 0x09;

/// Separator byte between a label and its value (`:`).
pub const SPLITTER: u8 = 0x3a;

/// The label alphabet: ASCII digits, ASCII letters, `_`, `.` and `-`.
pub open spec fn spec_is_label_byte(b: u8) -> bool {
    (0x30 <= b && b <= 0x39) || (0x41 <= b && b <= 0x5a) || (0x61 <= b && b <= 0x7a) || b == 0x5f
        || b == 0x2e || b == 0x2d
}

/// The field-value alphabet: every byte except NUL (0x00), tab (0x09) and the
/// newline control bytes (0x0A, 0x0D).
pub open spec fn spec_is_field_byte(b: u8) -> bool {
    (0x01 <= b && b <= 0x08) || b == 0x0b || b == 0x0c || 0x0e <= b
}

/// Decides whether `b` may occur in a label.
pub fn is_label_byte(b: u8) -> (r: bool)
    ensures
        r == spec_is_label_byte(b),
{
    (0x30 <= b && b <= 0x39) || (0x41 <= b && b <= 0x5a) || (0x61 <= b && b <= 0x7a) || b == 0x5f
        || b == 0x2e || b == 0x2d
}

/// Decides whether `b` may occur in a field value.
pub fn is_field_byte(b: u8) -> (r: bool)
    ensures
        r == spec_is_field_byte(b),
{
    (0x01 <= b && b <= 0x08) || b == 0x0b || b == 0x0c || 0x0e <= b
}

/// A well-formed label: non-empty, and every byte drawn from the label
/// alphabet.
pub open spec fn valid_label(s: Seq<u8>) -> bool {
    s.len() > 0 && forall|i: int| 0 <= i < s.len() ==> spec_is_label_byte(s[i])
}

/// A well-formed field value: every byte drawn from the field-value alphabet
/// (the value may be empty).
pub open spec fn valid_field_value(s: Seq<u8>) -> bool {
    forall|i: int| 0 <= i < s.len() ==> spec_is_field_byte(s[i])
}

} // verus!
