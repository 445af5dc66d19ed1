//! Small validators shared by the registry classifier.

use vstd::prelude::*;

verus! {

/// A hexadecimal digit, in either case.
pub open spec fn is_hex_digit(c: char) -> bool {
    ('0' <= c && c <= '9') || ('a' <= c && c <= 'f') || ('A' <= c && c <= 'F')
}

/// A compact device identifier: exactly twelve hexadecimal digits.
pub open spec fn spec_valid_64_hex(s: Seq<char>) -> bool {
    s.len() == 12 && (forall|k: int| 0 <= k < s.len() ==> is_hex_digit(s[k]))
}

/// Whether `c` is a hexadecimal digit.
pub fn hex_digit(c: char) -> (r: bool)
    ensures
        r == is_hex_digit(c),
{
    ('0' <= c && c <= '9') || ('a' <= c && c <= 'f') || ('A' <= c && c <= 'F')
}

/// Whether `input` is a compact twelve-digit hexadecimal device identifier,
/// the shape a legacy registry entry uses as its field name.
pub fn is_valid_64_hex(input: &str) -> (r: bool)
    ensures
        r == spec_valid_64_hex(input@),
{
    let n = input.unicode_len();
    if n != 12 {
        return false;
    }
    let mut i: usize = 0;
    while i < n
        invariant
            0 <= i <= n,
            n == input@.len(),
            forall|k: int| 0 <= k < i ==> is_hex_digit(input@[k]),
        decreases n - i,
    {
        if !hex_digit(input.get_char(i)) {
            return false;
        }
        i = i + 1;
    }
    true
}

} // verus!
