//! Grammar and value model of the field encodings.
//!
//! The registry export carries key material in three textual forms:
//! `hex:` and `hex(b):` comma-separated two-digit byte lists, and `dword:`
//! values whose payload is read as a decimal integer (a quirk of the source
//! format: the digits after the `dword:` prefix are decimal, not hex).
//! The Linux record writes key material as uppercase hexadecimal, and
//! addresses as uppercase bytes joined with ':'.

use vstd::prelude::*;
use crate::utils::is_hex_digit;

verus! {

/// Numeric value of a hexadecimal digit.
pub open spec fn hex_digit_val(c: char) -> u8
    recommends
        is_hex_digit(c),
{
    if '0' <= c && c <= '9' {
        ((c as u32) - ('0' as u32)) as u8
    } else if 'a' <= c && c <= 'f' {
        ((c as u32) - ('a' as u32) + 10) as u8
    } else {
        ((c as u32) - ('A' as u32) + 10) as u8
    }
}

/// The byte written as the two hexadecimal digits `hi` then `lo`.
pub open spec fn hex_pair_val(hi: char, lo: char) -> u8 {
    (hex_digit_val(hi) * 16 + hex_digit_val(lo)) as u8
}

/// The uppercase hexadecimal digit of a value below sixteen.
pub open spec fn upper_hex_digit(v: u8) -> char
    recommends
        v < 16,
{
    if v < 10 {
        ((('0' as u32) + (v as u32)) as char)
    } else {
        ((('A' as u32) + (v as u32) - 10) as char)
    }
}

/// Key material rendered for a Linux record: two uppercase hexadecimal
/// digits per byte, concatenated.
pub open spec fn key_hex(bytes: Seq<u8>) -> Seq<char> {
    Seq::new(
        bytes.len() * 2,
        |i: int|
            if i % 2 == 0 {
                upper_hex_digit((bytes[i / 2] / 16) as u8)
            } else {
                upper_hex_digit((bytes[i / 2] % 16) as u8)
            },
    )
}

/// An address rendered for a Linux record: uppercase hexadecimal bytes
/// joined with ':', in canonical order.
pub open spec fn addr_hex(bytes: Seq<u8>) -> Seq<char> {
    Seq::new(
        if bytes.len() == 0 {
            0
        } else {
            (bytes.len() * 3 - 1) as nat
        },
        |i: int|
            if i % 3 == 0 {
                upper_hex_digit((bytes[i / 3] / 16) as u8)
            } else if i % 3 == 1 {
                upper_hex_digit((bytes[i / 3] % 16) as u8)
            } else {
                ':'
            },
    )
}

/// A comma-separated list of exactly `n` two-digit hexadecimal bytes.
pub open spec fn hex_list_ok(s: Seq<char>, n: nat) -> bool {
    &&& n >= 1
    &&& s.len() == 3 * n - 1
    &&& forall|k: int| 0 <= k < n ==> is_hex_digit(#[trigger] s[3 * k]) && is_hex_digit(s[3 * k + 1])
    &&& forall|k: int| 0 <= k < n - 1 ==> #[trigger] s[3 * k + 2] == ','
}

/// The bytes of a well-formed list, in listed order.
pub open spec fn hex_list_bytes(s: Seq<char>, n: nat) -> Seq<u8> {
    Seq::new(n, |k: int| hex_pair_val(s[3 * k], s[3 * k + 1]))
}

/// The literal prefix of a `hex:` field.
pub open spec fn hex_prefix() -> Seq<char> {
    seq!['h', 'e', 'x', ':']
}

/// The literal prefix of a `hex(b):` field.
pub open spec fn hex_b_prefix() -> Seq<char> {
    seq!['h', 'e', 'x', '(', 'b', ')', ':']
}

/// The literal prefix of a `dword:` field.
pub open spec fn dword_prefix() -> Seq<char> {
    seq!['d', 'w', 'o', 'r', 'd', ':']
}

/// A `hex:` field carrying exactly `n` bytes.
pub open spec fn hex_field_ok(s: Seq<char>, n: nat) -> bool {
    s.len() >= 4 && s.take(4) == hex_prefix() && hex_list_ok(s.skip(4), n)
}

/// The bytes of a well-formed `hex:` field.
pub open spec fn hex_field_bytes(s: Seq<char>, n: nat) -> Seq<u8> {
    hex_list_bytes(s.skip(4), n)
}

/// A `hex(b):` field: always eight listed bytes.
pub open spec fn hex_b_field_ok(s: Seq<char>) -> bool {
    s.len() >= 7 && s.take(7) == hex_b_prefix() && hex_list_ok(s.skip(7), 8)
}

/// The eight bytes of a well-formed `hex(b):` field, in listed order.
pub open spec fn hex_b_field_bytes(s: Seq<char>) -> Seq<u8> {
    hex_list_bytes(s.skip(7), 8)
}

/// The canonical six address bytes of a `hex(b):` registry address: the
/// first six listed bytes reversed; the trailing two are padding and drop.
pub open spec fn win_addr_bytes(s: Seq<char>) -> Seq<u8> {
    Seq::new(6, |k: int| hex_b_field_bytes(s)[5 - k])
}

/// A compact legacy address: twelve hexadecimal digits, two per byte,
/// already in canonical order.
pub open spec fn compact_addr_bytes(s: Seq<char>) -> Seq<u8> {
    Seq::new(6, |k: int| hex_pair_val(s[2 * k], s[2 * k + 1]))
}

/// A decimal digit.
pub open spec fn is_dec_digit(c: char) -> bool {
    '0' <= c && c <= '9'
}

/// The value of a decimal digit string.
pub open spec fn dec_val(s: Seq<char>) -> int
    decreases s.len(),
{
    if s.len() == 0 {
        0
    } else {
        dec_val(s.drop_last()) * 10 + ((s.last() as u32) - ('0' as u32))
    }
}

/// A `dword:` field: the prefix, then at least one decimal digit, whose
/// value fits in thirty-two bits.
pub open spec fn dword_field_ok(s: Seq<char>) -> bool {
    &&& s.len() >= 7
    &&& s.take(6) == dword_prefix()
    &&& forall|k: int| 6 <= k < s.len() ==> is_dec_digit(#[trigger] s[k])
    &&& dec_val(s.skip(6)) <= u32::MAX
}

/// The value of a well-formed `dword:` field.
pub open spec fn dword_field_val(s: Seq<char>) -> int {
    dec_val(s.skip(6))
}

/// The four bytes of a thirty-two bit value, least significant first.
pub open spec fn le_bytes32(v: u32) -> Seq<u8> {
    seq![
        (v % 256) as u8,
        ((v / 256) % 256) as u8,
        ((v / 65536) % 256) as u8,
        ((v / 16777216) % 256) as u8,
    ]
}

/// The value of a digit string never shrinks as digits are appended.
pub proof fn lemma_dec_val_bounds(s: Seq<char>, i: int)
    requires
        forall|k: int| 0 <= k < s.len() ==> is_dec_digit(#[trigger] s[k]),
        0 <= i <= s.len(),
    ensures
        0 <= dec_val(s.take(i)) <= dec_val(s),
    decreases s.len(),
{
    if s.len() == 0 {
        assert(s.take(i) =~= s);
    } else {
        assert(forall|k: int|
            0 <= k < s.drop_last().len() ==> is_dec_digit(#[trigger] s.drop_last()[k]));
        lemma_dec_val_bounds(s.drop_last(), if i <= s.len() - 1 { i } else { s.len() - 1 });
        assert(is_dec_digit(s.last()));
        assert(dec_val(s.drop_last()) * 10 >= dec_val(s.drop_last())) by {
            assert(dec_val(s.drop_last()) >= 0);
        }
        if i == s.len() {
            assert(s.take(i) =~= s);
        } else {
            assert(s.take(i) =~= s.drop_last().take(i));
        }
    }
}

} // verus!
