//! Decoding the Windows registry's textual field encodings into canonical
//! byte material, and the builder that assembles one canonical device record
//! from the raw per-device fields.

use vstd::prelude::*;
use crate::codec::{
    compact_addr_bytes, dec_val, dword_field_ok, dword_field_val, dword_prefix, hex_b_field_bytes,
    hex_b_field_ok, hex_b_prefix, hex_digit_val, hex_field_bytes, hex_field_ok, hex_list_bytes,
    hex_list_ok, hex_pair_val, hex_prefix, is_dec_digit, le_bytes32, lemma_dec_val_bounds,
    win_addr_bytes,
};
use crate::errors::BtError;
use crate::sections::{field_value, find_field, RegSection};
use crate::text::str_to_chars;
use crate::uni_bt_device::{opt_view, Address, Csrk, EDiv, ERand, Irk, Ltk, UniBtDevice, UniBtDeviceV};
use crate::utils::{hex_digit, is_hex_digit, is_valid_64_hex, spec_valid_64_hex};

verus! {

/// The numeric value of a hexadecimal digit.
fn hex_digit_value(c: char) -> (r: u8)
    requires
        is_hex_digit(c),
    ensures
        r == hex_digit_val(c),
{
    let v = c as u32;
    if '0' <= c && c <= '9' {
        (v - ('0' as u32)) as u8
    } else if 'a' <= c && c <= 'f' {
        (v - ('a' as u32) + 10) as u8
    } else {
        (v - ('A' as u32) + 10) as u8
    }
}

/// The byte written as the two hexadecimal digits `hi` then `lo`.
fn hex_pair(hi: char, lo: char) -> (r: u8)
    requires
        is_hex_digit(hi),
        is_hex_digit(lo),
    ensures
        r == hex_pair_val(hi, lo),
{
    hex_digit_value(hi) * 16 + hex_digit_value(lo)
}

/// Reads a comma-separated list of exactly `n` two-digit hexadecimal bytes
/// that starts at `off` and must reach the end of `chars`.
fn parse_hex_list(chars: &Vec<char>, off: usize, n: usize) -> (r: Result<Vec<u8>, BtError>)
    requires
        off <= chars@.len(),
        1 <= n <= 16,
    ensures
        r is Ok <==> hex_list_ok(chars@.skip(off as int), n as nat),
        r is Ok ==> r->Ok_0@ == hex_list_bytes(chars@.skip(off as int), n as nat),
        r is Err ==> r->Err_0 == BtError::MalformedField,
{
    let ghost s = chars@.skip(off as int);
    let len = chars.len();
    if len - off != 3 * n - 1 {
        return Err(BtError::MalformedField);
    }
    let mut out: Vec<u8> = Vec::new();
    let mut k: usize = 0;
    while k < n
        invariant
            0 <= k <= n,
            1 <= n <= 16,
            off + 3 * n - 1 == chars@.len(),
            chars@.len() <= usize::MAX,
            s == chars@.skip(off as int),
            out@.len() == k,
            forall|j: int| 0 <= j < k ==> out@[j] == hex_pair_val(s[3 * j], s[3 * j + 1]),
            forall|j: int| 0 <= j < k ==> is_hex_digit(#[trigger] s[3 * j]) && is_hex_digit(
                s[3 * j + 1],
            ),
            forall|j: int| 0 <= j < k && j < n - 1 ==> #[trigger] s[3 * j + 2] == ',',
        decreases n - k,
    {
        let idx = off + 3 * k;
        let c1 = chars[idx];
        let c2 = chars[idx + 1];
        proof {
            assert(s[3 * (k as int)] == chars@[off + 3 * (k as int)]);
            assert(s[3 * (k as int) + 1] == chars@[off + 3 * (k as int) + 1]);
        }
        if !hex_digit(c1) || !hex_digit(c2) {
            return Err(BtError::MalformedField);
        }
        if k + 1 < n {
            proof {
                assert(s[3 * (k as int) + 2] == chars@[off + 3 * (k as int) + 2]);
            }
            if chars[idx + 2] != ',' {
                return Err(BtError::MalformedField);
            }
        }
        out.push(hex_pair(c1, c2));
        k = k + 1;
    }
    proof {
        assert(hex_list_ok(s, n as nat));
        assert(out@ =~= hex_list_bytes(s, n as nat));
    }
    Ok(out)
}

/// Whether `chars` starts with the `hex:` prefix.
fn has_hex_prefix(chars: &Vec<char>) -> (r: bool)
    ensures
        r == (chars@.len() >= 4 && chars@.take(4) == hex_prefix()),
{
    if chars.len() < 4 {
        return false;
    }
    let r = chars[0] == 'h' && chars[1] == 'e' && chars[2] == 'x' && chars[3] == ':';
    proof {
        if r {
            assert(chars@.take(4) =~= hex_prefix());
        } else {
            assert(chars@.take(4) != hex_prefix()) by {
                if chars@.take(4) == hex_prefix() {
                    assert(chars@[0] == 'h' && chars@[1] == 'e' && chars@[2] == 'x' && chars@[3]
                        == ':') by {
                        assert(chars@.take(4)[0] == hex_prefix()[0]);
                        assert(chars@.take(4)[1] == hex_prefix()[1]);
                        assert(chars@.take(4)[2] == hex_prefix()[2]);
                        assert(chars@.take(4)[3] == hex_prefix()[3]);
                    }
                }
            }
        }
    }
    r
}

/// Whether `chars` starts with the `hex(b):` prefix.
fn has_hex_b_prefix(chars: &Vec<char>) -> (r: bool)
    ensures
        r == (chars@.len() >= 7 && chars@.take(7) == hex_b_prefix()),
{
    if chars.len() < 7 {
        return false;
    }
    let r = chars[0] == 'h' && chars[1] == 'e' && chars[2] == 'x' && chars[3] == '(' && chars[4]
        == 'b' && chars[5] == ')' && chars[6] == ':';
    proof {
        if r {
            assert(chars@.take(7) =~= hex_b_prefix());
        } else {
            assert(chars@.take(7) != hex_b_prefix()) by {
                if chars@.take(7) == hex_b_prefix() {
                    assert(chars@[0] == 'h' && chars@[1] == 'e' && chars@[2] == 'x' && chars@[3]
                        == '(' && chars@[4] == 'b' && chars@[5] == ')' && chars@[6] == ':') by {
                        assert(chars@.take(7)[0] == hex_b_prefix()[0]);
                        assert(chars@.take(7)[1] == hex_b_prefix()[1]);
                        assert(chars@.take(7)[2] == hex_b_prefix()[2]);
                        assert(chars@.take(7)[3] == hex_b_prefix()[3]);
                        assert(chars@.take(7)[4] == hex_b_prefix()[4]);
                        assert(chars@.take(7)[5] == hex_b_prefix()[5]);
                        assert(chars@.take(7)[6] == hex_b_prefix()[6]);
                    }
                }
            }
        }
    }
    r
}

/// Whether `chars` starts with the `dword:` prefix.
fn has_dword_prefix(chars: &Vec<char>) -> (r: bool)
    ensures
        r == (chars@.len() >= 6 && chars@.take(6) == dword_prefix()),
{
    if chars.len() < 6 {
        return false;
    }
    let r = chars[0] == 'd' && chars[1] == 'w' && chars[2] == 'o' && chars[3] == 'r' && chars[4]
        == 'd' && chars[5] == ':';
    proof {
        if r {
            assert(chars@.take(6) =~= dword_prefix());
        } else {
            assert(chars@.take(6) != dword_prefix()) by {
                if chars@.take(6) == dword_prefix() {
                    assert(chars@[0] == 'd' && chars@[1] == 'w' && chars@[2] == 'o' && chars@[3]
                        == 'r' && chars@[4] == 'd' && chars@[5] == ':') by {
                        assert(chars@.take(6)[0] == dword_prefix()[0]);
                        assert(chars@.take(6)[1] == dword_prefix()[1]);
                        assert(chars@.take(6)[2] == dword_prefix()[2]);
                        assert(chars@.take(6)[3] == dword_prefix()[3]);
                        assert(chars@.take(6)[4] == dword_prefix()[4]);
                        assert(chars@.take(6)[5] == dword_prefix()[5]);
                    }
                }
            }
        }
    }
    r
}

/// Decodes a `hex:` key field into its sixteen bytes.
pub fn hex_to_bytes(hex: &str) -> (r: Result<Vec<u8>, BtError>)
    ensures
        r is Ok <==> hex_field_ok(hex@, 16),
        r is Ok ==> r->Ok_0@ == hex_field_bytes(hex@, 16),
        r is Err ==> r->Err_0 == BtError::MalformedField,
{
    let chars = str_to_chars(hex);
    if !has_hex_prefix(&chars) {
        return Err(BtError::MalformedField);
    }
    parse_hex_list(&chars, 4, 16)
}

/// Decodes a `hex(b):` field into its eight bytes, in listed order.
pub fn hex_b_to_bytes(hex: &str) -> (r: Result<Vec<u8>, BtError>)
    ensures
        r is Ok <==> hex_b_field_ok(hex@),
        r is Ok ==> r->Ok_0@ == hex_b_field_bytes(hex@),
        r is Err ==> r->Err_0 == BtError::MalformedField,
{
    let chars = str_to_chars(hex);
    if !has_hex_b_prefix(&chars) {
        return Err(BtError::MalformedField);
    }
    parse_hex_list(&chars, 7, 8)
}

/// Decodes a `dword:` field: the digits after the prefix are read as a
/// decimal integer and emitted as four bytes, least significant first.
pub fn dword_to_bytes(dword: &str) -> (r: Result<Vec<u8>, BtError>)
    ensures
        r is Ok <==> dword_field_ok(dword@),
        r is Ok ==> r->Ok_0@ == le_bytes32(dword_field_val(dword@) as u32),
        r is Err ==> r->Err_0 == BtError::MalformedField,
{
    let chars = str_to_chars(dword);
    if !has_dword_prefix(&chars) {
        return Err(BtError::MalformedField);
    }
    let n = chars.len();
    if n < 7 {
        return Err(BtError::MalformedField);
    }
    let ghost digits = chars@.skip(6);
    let mut val: u64 = 0;
    let mut i: usize = 6;
    while i < n
        invariant
            6 <= i <= n,
            chars@ == dword@,
            n == chars@.len(),
            digits == chars@.skip(6),
            forall|k: int| 6 <= k < i ==> is_dec_digit(#[trigger] chars@[k]),
            val <= u32::MAX,
            val == dec_val(digits.take(i - 6)),
        decreases n - i,
    {
        let c = chars[i];
        if !('0' <= c && c <= '9') {
            proof {
                assert(!is_dec_digit(dword@[i as int]));
            }
            return Err(BtError::MalformedField);
        }
        let d: u64 = ((c as u32) - ('0' as u32)) as u64;
        let next: u64 = val * 10 + d;
        proof {
            assert(digits.take(i - 6 + 1).drop_last() =~= digits.take(i - 6));
            assert(digits.take(i - 6 + 1).last() == chars@[i as int]);
        }
        if next > 0xFFFF_FFFF {
            proof {
                assert(dec_val(digits.take(i - 6 + 1)) == next);
                if forall|k: int| 6 <= k < dword@.len() ==> is_dec_digit(#[trigger] dword@[k]) {
                    assert(forall|k: int| 0 <= k < digits.len() ==> is_dec_digit(
                        #[trigger] digits[k],
                    ));
                    lemma_dec_val_bounds(digits, i - 6 + 1);
                    assert(dec_val(digits) > u32::MAX);
                }
                assert(!dword_field_ok(dword@));
            }
            return Err(BtError::MalformedField);
        }
        val = next;
        i = i + 1;
    }
    proof {
        assert(digits.take(n - 6) =~= digits);
        assert(dword_field_ok(dword@));
    }
    let v: u32 = val as u32;
    let mut out: Vec<u8> = Vec::new();
    out.push((v % 256) as u8);
    out.push(((v / 256) % 256) as u8);
    out.push(((v / 65536) % 256) as u8);
    out.push(((v / 16777216) % 256) as u8);
    proof {
        assert(out@ =~= le_bytes32(v));
    }
    Ok(out)
}

/// Decodes a `hex(b):` registry address into the canonical six bytes: the
/// first six listed bytes reversed, the two padding bytes dropped.
pub fn win_address_to_bytes(s: &str) -> (r: Result<Vec<u8>, BtError>)
    ensures
        r is Ok <==> hex_b_field_ok(s@),
        r is Ok ==> r->Ok_0@ == win_addr_bytes(s@),
        r is Err ==> r->Err_0 == BtError::MalformedField,
{
    let listed = match hex_b_to_bytes(s) {
        Ok(b) => b,
        Err(e) => {
            return Err(e);
        },
    };
    let mut out: Vec<u8> = Vec::new();
    let mut k: usize = 0;
    while k < 6
        invariant
            0 <= k <= 6,
            listed@ == hex_b_field_bytes(s@),
            listed@.len() == 8,
            out@.len() == k,
            forall|j: int| 0 <= j < k ==> out@[j] == hex_b_field_bytes(s@)[5 - j],
        decreases 6 - k,
    {
        out.push(listed[5 - k]);
        k = k + 1;
    }
    proof {
        assert(out@ =~= win_addr_bytes(s@));
    }
    Ok(out)
}

/// Decodes a compact legacy address: twelve hexadecimal digits, two per
/// byte, already in canonical order.
pub fn compact_address_to_bytes(s: &str) -> (r: Result<Vec<u8>, BtError>)
    ensures
        r is Ok <==> spec_valid_64_hex(s@),
        r is Ok ==> r->Ok_0@ == compact_addr_bytes(s@),
        r is Err ==> r->Err_0 == BtError::MalformedField,
{
    if !is_valid_64_hex(s) {
        return Err(BtError::MalformedField);
    }
    let chars = str_to_chars(s);
    let mut out: Vec<u8> = Vec::new();
    let mut k: usize = 0;
    while k < 6
        invariant
            0 <= k <= 6,
            chars@ == s@,
            spec_valid_64_hex(s@),
            out@.len() == k,
            forall|j: int| 0 <= j < k ==> out@[j] == hex_pair_val(s@[2 * j], s@[2 * j + 1]),
        decreases 6 - k,
    {
        let c1 = chars[2 * k];
        let c2 = chars[2 * k + 1];
        out.push(hex_pair(c1, c2));
        k = k + 1;
    }
    proof {
        assert(out@ =~= compact_addr_bytes(s@));
    }
    Ok(out)
}

/// The raw fields of an extended-shape registry entry: the record carries
/// its own address, and may carry the optional keys beside the mandatory
/// long-term key.
pub struct Entries51 {
    /// Raw `hex(b):` address value.
    pub address: String,
    /// Raw `hex:` long-term key value.
    pub ltk: String,
    /// Raw `hex(b):` encrypted random value, if present.
    pub e_rand: Option<String>,
    /// Raw `dword:` encrypted diversifier, if present.
    pub e_div: Option<String>,
    /// Raw `hex:` identity resolving key, if present.
    pub irk: Option<String>,
    /// Raw `hex:` connection signature resolving key, if present.
    pub csrk: Option<String>,
}

impl Entries51 {
    /// Collects the raw values of an extended-shape entry from its parsed
    /// section: the address and the long-term key are mandatory, the rest
    /// stay absent where the section has no such field.
    pub fn from_section(sec: &RegSection) -> (r: Result<Entries51, BtError>)
        ensures
            r is Ok <==> (find_field(sec@.fields, "Address"@) is Some && find_field(
                sec@.fields,
                "LTK"@,
            ) is Some),
            r is Ok ==> {
                let e = r->Ok_0;
                &&& e.address@ == find_field(sec@.fields, "Address"@)->0
                &&& e.ltk@ == find_field(sec@.fields, "LTK"@)->0
                &&& opt_view(e.e_rand) == find_field(sec@.fields, "ERand"@)
                &&& opt_view(e.e_div) == find_field(sec@.fields, "EDIV"@)
                &&& opt_view(e.irk) == find_field(sec@.fields, "IRK"@)
                &&& opt_view(e.csrk) == find_field(sec@.fields, "CSRK"@)
            },
            r is Err ==> r->Err_0 == BtError::MissingField,
    {
        let address = match field_value(sec, "Address") {
            Some(v) => v,
            None => {
                return Err(BtError::MissingField);
            },
        };
        let ltk = match field_value(sec, "LTK") {
            Some(v) => v,
            None => {
                return Err(BtError::MissingField);
            },
        };
        let e_rand = field_value(sec, "ERand");
        let e_div = field_value(sec, "EDIV");
        let irk = field_value(sec, "IRK");
        let csrk = field_value(sec, "CSRK");
        Ok(Entries51 { address, ltk, e_rand, e_div, irk, csrk })
    }
}

/// Assembles one canonical device record from raw registry values: either a
/// legacy entry (explicit address and long-term key, both given as strings)
/// or an extended entry (the raw field set), always with the adapter's
/// compact address.
pub struct BtDeviceBuilder {
    pub address: Option<String>,
    pub parent_address: Option<String>,
    pub ltk: Option<String>,
    pub entries51: Option<Entries51>,
}

/// Whether every raw value the builder would decode matches its grammar.
pub open spec fn spec_build_ok(b: BtDeviceBuilder) -> bool {
    &&& spec_valid_64_hex(b.parent_address->0@)
    &&& match b.address {
        Some(a) => spec_valid_64_hex(a@),
        None => hex_b_field_ok(b.entries51->0.address@),
    }
    &&& match b.ltk {
        Some(l) => hex_field_ok(l@, 16),
        None => hex_field_ok(b.entries51->0.ltk@, 16),
    }
    &&& match b.entries51 {
        Some(e) => {
            &&& match e.e_rand {
                Some(s) => hex_b_field_ok(s@),
                None => true,
            }
            &&& match e.e_div {
                Some(s) => dword_field_ok(s@),
                None => true,
            }
            &&& match e.irk {
                Some(s) => hex_field_ok(s@, 16),
                None => true,
            }
            &&& match e.csrk {
                Some(s) => hex_field_ok(s@, 16),
                None => true,
            }
        },
        None => true,
    }
}

/// The canonical record a well-formed builder decodes to.
pub open spec fn built_device(b: BtDeviceBuilder) -> UniBtDeviceV {
    UniBtDeviceV {
        address: match b.address {
            Some(a) => compact_addr_bytes(a@),
            None => win_addr_bytes(b.entries51->0.address@),
        },
        parent_address: compact_addr_bytes(b.parent_address->0@),
        ltk: match b.ltk {
            Some(l) => hex_field_bytes(l@, 16),
            None => hex_field_bytes(b.entries51->0.ltk@, 16),
        },
        e_rand: match b.entries51 {
            Some(e) => match e.e_rand {
                Some(s) => Some(hex_b_field_bytes(s@)),
                None => None,
            },
            None => None,
        },
        e_div: match b.entries51 {
            Some(e) => match e.e_div {
                Some(s) => Some(le_bytes32(dword_field_val(s@) as u32)),
                None => None,
            },
            None => None,
        },
        irk: match b.entries51 {
            Some(e) => match e.irk {
                Some(s) => Some(hex_field_bytes(s@, 16)),
                None => None,
            },
            None => None,
        },
        csrk: match b.entries51 {
            Some(e) => match e.csrk {
                Some(s) => Some(hex_field_bytes(s@, 16)),
                None => None,
            },
            None => None,
        },
    }
}

impl BtDeviceBuilder {
    /// An empty builder.
    pub fn new() -> (r: Self)
        ensures
            r.address is None,
            r.parent_address is None,
            r.ltk is None,
            r.entries51 is None,
    {
        BtDeviceBuilder { address: None, parent_address: None, ltk: None, entries51: None }
    }

    /// The raw long-term key, in the `hex:` comma-separated form.
    pub fn ltk(self, ltk: String) -> (r: Self)
        ensures
            r == (BtDeviceBuilder { ltk: Some(ltk), ..self }),
    {
        BtDeviceBuilder { ltk: Some(ltk), ..self }
    }

    /// The device's compact twelve-digit address.
    pub fn address(self, address_b: String) -> (r: Self)
        ensures
            r == (BtDeviceBuilder { address: Some(address_b), ..self }),
    {
        BtDeviceBuilder { address: Some(address_b), ..self }
    }

    /// The adapter's compact twelve-digit address.
    pub fn parent_address(self, parent_address: String) -> (r: Self)
        ensures
            r == (BtDeviceBuilder { parent_address: Some(parent_address), ..self }),
    {
        BtDeviceBuilder { parent_address: Some(parent_address), ..self }
    }

    /// The raw field set of an extended-shape entry.
    pub fn entries51(self, entries51: Entries51) -> (r: Self)
        ensures
            r == (BtDeviceBuilder { entries51: Some(entries51), ..self }),
    {
        BtDeviceBuilder { entries51: Some(entries51), ..self }
    }

    /// Decodes every raw value and assembles the canonical record; any
    /// malformed value abandons the device.
    #[verifier::rlimit(60)]
    pub fn build(self) -> (r: Result<UniBtDevice, BtError>)
        requires
            self.parent_address is Some,
            self.address is Some || self.entries51 is Some,
            self.ltk is Some || self.entries51 is Some,
        ensures
            r is Ok <==> spec_build_ok(self),
            r is Ok ==> r->Ok_0@ == built_device(self) && r->Ok_0.wf(),
            r is Err ==> r->Err_0 == BtError::MalformedField,
    {
        let ghost b = self;
        let BtDeviceBuilder { address, parent_address, ltk, entries51 } = self;

        let parent_bytes = if let Some(p) = &parent_address {
            match compact_address_to_bytes(p.as_str()) {
                Ok(bytes) => bytes,
                Err(e) => {
                    return Err(e);
                },
            }
        } else {
            proof {
                assert(false);
            }
            unreached()
        };

        let addr_bytes = if let Some(a) = &address {
            match compact_address_to_bytes(a.as_str()) {
                Ok(bytes) => bytes,
                Err(e) => {
                    return Err(e);
                },
            }
        } else if let Some(e) = &entries51 {
            match win_address_to_bytes(e.address.as_str()) {
                Ok(bytes) => bytes,
                Err(err) => {
                    return Err(err);
                },
            }
        } else {
            proof {
                assert(false);
            }
            unreached()
        };

        let ltk_bytes = if let Some(l) = &ltk {
            match hex_to_bytes(l.as_str()) {
                Ok(bytes) => bytes,
                Err(e) => {
                    return Err(e);
                },
            }
        } else if let Some(e) = &entries51 {
            match hex_to_bytes(e.ltk.as_str()) {
                Ok(bytes) => bytes,
                Err(err) => {
                    return Err(err);
                },
            }
        } else {
            proof {
                assert(false);
            }
            unreached()
        };

        let e_rand: Option<ERand> = if let Some(e) = &entries51 {
            if let Some(s) = &e.e_rand {
                match hex_b_to_bytes(s.as_str()) {
                    Ok(bytes) => Some(ERand(bytes)),
                    Err(err) => {
                        return Err(err);
                    },
                }
            } else {
                None
            }
        } else {
            None
        };

        let e_div: Option<EDiv> = if let Some(e) = &entries51 {
            if let Some(s) = &e.e_div {
                match dword_to_bytes(s.as_str()) {
                    Ok(bytes) => Some(EDiv(bytes)),
                    Err(err) => {
                        return Err(err);
                    },
                }
            } else {
                None
            }
        } else {
            None
        };

        let irk: Option<Irk> = if let Some(e) = &entries51 {
            if let Some(s) = &e.irk {
                match hex_to_bytes(s.as_str()) {
                    Ok(bytes) => Some(Irk(bytes)),
                    Err(err) => {
                        return Err(err);
                    },
                }
            } else {
                None
            }
        } else {
            None
        };

        let csrk: Option<Csrk> = if let Some(e) = &entries51 {
            if let Some(s) = &e.csrk {
                match hex_to_bytes(s.as_str()) {
                    Ok(bytes) => Some(Csrk(bytes)),
                    Err(err) => {
                        return Err(err);
                    },
                }
            } else {
                None
            }
        } else {
            None
        };

        let dev = UniBtDevice {
            address: Address(addr_bytes),
            parent_address: Address(parent_bytes),
            ltk: Ltk(ltk_bytes),
            e_rand,
            e_div,
            irk,
            csrk,
        };
        proof {
            assert(spec_build_ok(b));
            assert(dev@ =~~= built_device(b));
        }
        Ok(dev)
    }
}

} // verus!
