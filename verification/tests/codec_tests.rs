use bt_dualboot::errors::BtError;
use bt_dualboot::linux_bt_device::{bytes_to_linux_hex_address, bytes_to_linux_hex_key, BtAddress};
use bt_dualboot::uni_bt_device::Address;
use bt_dualboot::utils::is_valid_64_hex;
use bt_dualboot::win_bt_device::{
    compact_address_to_bytes, dword_to_bytes, hex_b_to_bytes, hex_to_bytes, win_address_to_bytes,
};

#[test]
fn dword_decodes_zero() {
    assert_eq!(dword_to_bytes("dword:00000000"), Ok(vec![0, 0, 0, 0]));
}

#[test]
fn dword_payload_is_decimal() {
    // The digits after the prefix are read as decimal, not hex: 69, not 0x69.
    assert_eq!(dword_to_bytes("dword:00000069"), Ok(vec![69, 0, 0, 0]));
}

#[test]
fn dword_rejects_hex_digit_in_payload() {
    // A payload with a hex letter does not match the decimal grammar.
    assert_eq!(dword_to_bytes("dword:0000002d"), Err(BtError::MalformedField));
}

#[test]
fn dword_emits_least_significant_byte_first() {
    // 82441 is 0x00014209.
    assert_eq!(dword_to_bytes("dword:00082441"), Ok(vec![0x09, 0x42, 0x01, 0x00]));
}

#[test]
fn dword_accepts_maximum_value() {
    assert_eq!(dword_to_bytes("dword:4294967295"), Ok(vec![255, 255, 255, 255]));
}

#[test]
fn dword_rejects_overflow() {
    assert_eq!(dword_to_bytes("dword:4294967296"), Err(BtError::MalformedField));
}

#[test]
fn dword_rejects_empty_payload_and_wrong_prefix() {
    assert_eq!(dword_to_bytes("dword:"), Err(BtError::MalformedField));
    assert_eq!(dword_to_bytes("dwor:00000000"), Err(BtError::MalformedField));
    assert_eq!(dword_to_bytes(""), Err(BtError::MalformedField));
}

#[test]
fn dword_decode_is_deterministic_over_its_grammar() {
    let inputs = ["dword:00000000", "dword:00000001", "dword:4294967295", "dword:7"];
    for s in inputs {
        let first = dword_to_bytes(s);
        let second = dword_to_bytes(s);
        assert!(first.is_ok());
        assert_eq!(first, second);
    }
}

#[test]
fn hex_decodes_long_term_key() {
    let raw = "hex:c2,90,19,3b,1e,be,c7,d0,18,c6,4f,e9,67,ad,6b,d5";
    let expected = vec![
        0xc2, 0x90, 0x19, 0x3b, 0x1e, 0xbe, 0xc7, 0xd0, 0x18, 0xc6, 0x4f, 0xe9, 0x67, 0xad, 0x6b,
        0xd5,
    ];
    assert_eq!(hex_to_bytes(raw), Ok(expected));
}

#[test]
fn hex_rejects_wrong_element_count() {
    assert_eq!(hex_to_bytes("hex:c2,90"), Err(BtError::MalformedField));
    assert_eq!(
        hex_to_bytes("hex:c2,90,19,3b,1e,be,c7,d0,18,c6,4f,e9,67,ad,6b,d5,aa"),
        Err(BtError::MalformedField)
    );
}

#[test]
fn hex_rejects_bad_digit_and_bad_prefix() {
    assert_eq!(
        hex_to_bytes("hex:zz,90,19,3b,1e,be,c7,d0,18,c6,4f,e9,67,ad,6b,d5"),
        Err(BtError::MalformedField)
    );
    assert_eq!(
        hex_to_bytes("hex(b):c2,90,19,3b,1e,be,c7,d0,18,c6,4f,e9,67,ad,6b,d5"),
        Err(BtError::MalformedField)
    );
}

#[test]
fn hex_b_decodes_eight_bytes_in_listed_order() {
    let raw = "hex(b):11,22,33,44,55,66,77,88";
    assert_eq!(
        hex_b_to_bytes(raw),
        Ok(vec![0x11, 0x22, 0x33, 0x44, 0x55, 0x66, 0x77, 0x88])
    );
}

#[test]
fn hex_b_rejects_seven_bytes() {
    assert_eq!(hex_b_to_bytes("hex(b):11,22,33,44,55,66,77"), Err(BtError::MalformedField));
}

#[test]
fn windows_address_decode_reverses_and_drops_padding() {
    let raw = "hex(b):c1,f4,11,0a,29,c8,00,00";
    assert_eq!(
        win_address_to_bytes(raw),
        Ok(vec![0xc8, 0x29, 0x0a, 0x11, 0xf4, 0xc1])
    );
}

#[test]
fn decoded_address_encodes_to_linux_form() {
    let bytes = win_address_to_bytes("hex(b):c1,f4,11,0a,29,c8,00,00").unwrap();
    assert_eq!(bytes_to_linux_hex_address(&bytes), "C8:29:0A:11:F4:C1");
}

#[test]
fn compact_legacy_address_decodes_without_reversal() {
    assert_eq!(
        compact_address_to_bytes("c0fbf9601c13"),
        Ok(vec![0xc0, 0xfb, 0xf9, 0x60, 0x1c, 0x13])
    );
}

#[test]
fn compact_address_rejects_wrong_length_and_bad_digit() {
    assert_eq!(compact_address_to_bytes("c0fbf9601c1"), Err(BtError::MalformedField));
    assert_eq!(compact_address_to_bytes("c0fbf9601c1g"), Err(BtError::MalformedField));
}

#[test]
fn long_term_key_encodes_to_linux_key_string() {
    let bytes = hex_to_bytes("hex:c2,90,19,3b,1e,be,c7,d0,18,c6,4f,e9,67,ad,6b,d5").unwrap();
    assert_eq!(bytes_to_linux_hex_key(&bytes), "C290193B1EBEC7D018C64FE967AD6BD5");
}

#[test]
fn bt_address_renders_directory_name() {
    let a = Address(vec![0xc0, 0xfb, 0xf9, 0x60, 0x1c, 0x13]);
    assert_eq!(BtAddress::from_address(&a).0, "C0:FB:F9:60:1C:13");
}

#[test]
fn is_valid_64_hex_accepts_twelve_hex_digits() {
    assert!(is_valid_64_hex("4c875d26dc9f"));
    assert!(is_valid_64_hex("ABCDEF123456"));
}

#[test]
fn is_valid_64_hex_rejects_other_shapes() {
    assert!(!is_valid_64_hex(""));
    assert!(!is_valid_64_hex("4c875d26dc9"));
    assert!(!is_valid_64_hex("4c875d26dc9ff"));
    assert!(!is_valid_64_hex("4c875d26dc9g"));
    assert!(!is_valid_64_hex("MasterIRK"));
}
