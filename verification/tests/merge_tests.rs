use bt_dualboot::errors::BtError;
use bt_dualboot::info_file::{parse_info, plan_update, serialize_info};
use bt_dualboot::linux_bt_device::BtDeviceBuilder;
use bt_dualboot::uni_bt_device::{Address, Csrk, EDiv, ERand, Irk, Ltk, UniBtDevice};

fn sample_device() -> UniBtDevice {
    UniBtDevice {
        address: Address(vec![0xc8, 0x29, 0x0a, 0x11, 0xf4, 0xc1]),
        parent_address: Address(vec![0xc0, 0xfb, 0xf9, 0x60, 0x1c, 0x13]),
        ltk: Ltk(vec![
            0xc2, 0x90, 0x19, 0x3b, 0x1e, 0xbe, 0xc7, 0xd0, 0x18, 0xc6, 0x4f, 0xe9, 0x67, 0xad,
            0x6b, 0xd5,
        ]),
        e_rand: Some(ERand(vec![0x11, 0x22, 0x33, 0x44, 0x55, 0x66, 0x77, 0x88])),
        e_div: Some(EDiv(vec![0x45, 0x00, 0x00, 0x00])),
        irk: Some(Irk(vec![
            0x0f, 0x1e, 0x2d, 0x3c, 0x4b, 0x5a, 0x69, 0x78, 0x87, 0x96, 0xa5, 0xb4, 0xc3, 0xd2,
            0xe1, 0xf0,
        ])),
        csrk: Some(Csrk(vec![
            0xfc, 0xea, 0xf8, 0x3e, 0xe3, 0xee, 0xee, 0xd0, 0x96, 0x61, 0x96, 0x2a, 0x6e, 0xb0,
            0x33, 0x8a,
        ])),
    }
}

fn sample_info() -> String {
    [
        "[General]",
        "Name=Test Mouse",
        "AddressType=static",
        "SupportedTechnologies=LE",
        "Trusted=true",
        "Blocked=false",
        "Services=0000180f-0000-1000-8000-00805f9b34fb",
        "[ConnectionParameters]",
        "MinInterval=6",
        "MaxInterval=9",
        "Latency=44",
        "Timeout=216",
        "[LinkKey]",
        "Key=786DC4332D385A48C4E718FE0B84FF20",
        "Type=4",
        "PINLength=0",
        "[IdentityResolvingKey]",
        "Key=786DC4332D385A48C4E718FE0B84FF20",
        "[LongTermKey]",
        "Key=128515400334819AA35B2D6C010BCEB1",
        "Authenticated=2",
        "EncSize=16",
        "EDiv=12345",
        "Rand=678910",
        "",
    ]
    .join("\n")
}

#[test]
fn merge_replaces_key_material_and_preserves_the_rest() {
    let info = sample_info();
    let out = plan_update(Some(&info), &sample_device()).unwrap().unwrap();
    let expected = [
        "[General]",
        "Name=Test Mouse",
        "AddressType=static",
        "SupportedTechnologies=LE",
        "Trusted=true",
        "Blocked=false",
        "Services=0000180f-0000-1000-8000-00805f9b34fb",
        "[ConnectionParameters]",
        "MinInterval=6",
        "MaxInterval=9",
        "Latency=44",
        "Timeout=216",
        "[LinkKey]",
        "Key=C290193B1EBEC7D018C64FE967AD6BD5",
        "Type=4",
        "PINLength=0",
        "[IdentityResolvingKey]",
        "Key=0F1E2D3C4B5A69788796A5B4C3D2E1F0",
        "[LongTermKey]",
        "Key=C290193B1EBEC7D018C64FE967AD6BD5",
        "Authenticated=2",
        "EncSize=16",
        "EDiv=45000000",
        "Rand=1122334455667788",
        "",
    ]
    .join("\r\n");
    assert_eq!(out, expected);
}

#[test]
fn long_term_key_merge_preserves_authenticated_and_enc_size() {
    let info = sample_info();
    let merged = parse_info(
        plan_update(Some(&info), &sample_device()).unwrap().unwrap().as_str(),
    )
    .unwrap();
    let ltk_section = merged.long_term_key.unwrap();
    assert_eq!(ltk_section.authenticated, "2");
    assert_eq!(ltk_section.enc_size, "16");
    assert_eq!(ltk_section.key, "C290193B1EBEC7D018C64FE967AD6BD5");
    assert_eq!(ltk_section.e_div, "45000000");
    assert_eq!(ltk_section.rand, "1122334455667788");
}

#[test]
fn long_term_key_untouched_without_both_ediv_and_rand() {
    let mut dev = sample_device();
    dev.e_div = None;
    let info = sample_info();
    let out = plan_update(Some(&info), &dev).unwrap().unwrap();
    let merged = parse_info(out.as_str()).unwrap();
    let ltk_section = merged.long_term_key.unwrap();
    assert_eq!(ltk_section.key, "128515400334819AA35B2D6C010BCEB1");
    assert_eq!(ltk_section.e_div, "12345");
    assert_eq!(ltk_section.rand, "678910");
}

#[test]
fn absent_sections_stay_absent() {
    let info = sample_info();
    let merged = parse_info(
        plan_update(Some(&info), &sample_device()).unwrap().unwrap().as_str(),
    )
    .unwrap();
    assert!(merged.device_id.is_none());
    assert!(merged.slave_long_term_key.is_none());
    assert!(merged.peripheral_long_term_key.is_none());
    assert!(merged.local_signature_key.is_none());
}

#[test]
fn identity_key_untouched_without_exported_irk() {
    let mut dev = sample_device();
    dev.irk = None;
    let info = sample_info();
    let merged = parse_info(
        plan_update(Some(&info), &dev).unwrap().unwrap().as_str(),
    )
    .unwrap();
    assert_eq!(
        merged.identity_resolving_key.unwrap().key,
        "786DC4332D385A48C4E718FE0B84FF20"
    );
}

#[test]
fn device_without_linux_record_causes_no_write() {
    assert_eq!(plan_update(None, &sample_device()), Ok(None));
}

#[test]
fn merge_is_deterministic_and_idempotent_on_the_text() {
    let info = sample_info();
    let dev = sample_device();
    let first = plan_update(Some(&info), &dev).unwrap().unwrap();
    let second = plan_update(Some(&info), &dev).unwrap().unwrap();
    assert_eq!(first, second);
    let again = plan_update(Some(&first), &dev).unwrap().unwrap();
    assert_eq!(again, first);
}

#[test]
fn unparseable_record_abandons_the_device() {
    let broken = String::from("Name=only a field, no section");
    assert_eq!(
        plan_update(Some(&broken), &sample_device()),
        Err(BtError::MalformedRecord)
    );
}

#[test]
fn record_missing_a_required_field_is_rejected() {
    let partial = String::from("[LinkKey]\nKey=786DC4332D385A48C4E718FE0B84FF20\nType=4");
    assert!(matches!(parse_info(partial.as_str()), Err(BtError::MalformedRecord)));
}

#[test]
fn builder_merges_a_parsed_record() {
    let rec = parse_info(sample_info().as_str()).unwrap();
    let dev = sample_device();
    let merged = BtDeviceBuilder::new()
        .device(rec)
        .ltk(dev.ltk)
        .e_rand(dev.e_rand.unwrap())
        .e_div(dev.e_div.unwrap())
        .irk(dev.irk.unwrap())
        .csrk(dev.csrk.unwrap())
        .build();
    let text = serialize_info(&merged);
    assert!(text.contains("Key=C290193B1EBEC7D018C64FE967AD6BD5"));
    assert!(text.contains("EDiv=45000000"));
    assert!(text.contains("Rand=1122334455667788"));
    assert!(text.contains("Authenticated=2"));
}

#[test]
fn serialize_round_trips_through_parse() {
    let rec = parse_info(sample_info().as_str()).unwrap();
    let text = serialize_info(&rec);
    let rec2 = parse_info(text.as_str()).unwrap();
    assert_eq!(serialize_info(&rec2), text);
}
