use bt_dualboot::errors::BtError;
use bt_dualboot::registry::assemble_devices;
use bt_dualboot::sections::parse_sections;

const KEYS_BRANCH: &str = r"HKEY_LOCAL_MACHINE\SYSTEM\ControlSet001\Services\BTHPORT\Parameters\Keys";

fn export_text(lines: &[String]) -> String {
    lines.join("\n")
}

#[test]
fn parse_sections_reads_headers_and_fields() {
    let text = "[alpha]\nA=1\nB = 2 \n\n[beta]\nC=3";
    let secs = parse_sections(text).unwrap();
    assert_eq!(secs.len(), 2);
    assert_eq!(secs[0].name, "alpha");
    assert_eq!(secs[0].fields.len(), 2);
    assert_eq!(secs[0].fields[0].name, "A");
    assert_eq!(secs[0].fields[0].value, "1");
    assert_eq!(secs[0].fields[1].name, "B");
    assert_eq!(secs[0].fields[1].value, "2");
    assert_eq!(secs[1].name, "beta");
    assert_eq!(secs[1].fields[0].value, "3");
}

#[test]
fn parse_sections_skips_comments_and_crlf() {
    let text = "[alpha]\r\n; note\r\n# note\r\nA=1\r\n";
    let secs = parse_sections(text).unwrap();
    assert_eq!(secs.len(), 1);
    assert_eq!(secs[0].fields.len(), 1);
}

#[test]
fn parse_sections_rejects_field_before_any_section() {
    assert!(matches!(parse_sections("A=1"), Err(BtError::StructuralParse)));
}

#[test]
fn parse_sections_rejects_line_without_equals() {
    assert!(matches!(parse_sections("[alpha]\ngarbage line"), Err(BtError::StructuralParse)));
}

#[test]
fn parse_sections_rejects_unterminated_header() {
    assert!(matches!(parse_sections("[alpha\nA=1"), Err(BtError::StructuralParse)));
}

#[test]
fn assemble_builds_legacy_and_extended_devices() {
    let lines = vec![
        format!("[{}\\c0fbf9601c13]", KEYS_BRANCH),
        String::from("\"MasterIRK\"=hex:fc,ea,f8,3e,e3,ee,ee,d0,96,61,96,2a,6e,b0,33,8a"),
        String::from("\"4c875d26dc9f\"=hex:c2,90,19,3b,1e,be,c7,d0,18,c6,4f,e9,67,ad,6b,d5"),
        format!("[{}\\c0fbf9601c13\\0123456789ab]", KEYS_BRANCH),
        String::from("\"AuthReq\"=dword:0000002d"),
        String::from("\"LTK\"=hex:fc,ea,f8,3e,e3,ee,ee,d0,96,61,96,2a,6e,b0,33,8a"),
        String::from("\"KeyLength\"=dword:00000000"),
        String::from("\"ERand\"=hex(b):11,22,33,44,55,66,77,88"),
        String::from("\"EDIV\"=dword:00000069"),
        String::from("\"Address\"=hex(b):c1,f4,11,0a,29,c8,00,00"),
        String::from("\"IRK\"=hex:0f,1e,2d,3c,4b,5a,69,78,87,96,a5,b4,c3,d2,e1,f0"),
    ];
    let secs = parse_sections(&export_text(&lines)).unwrap();
    let (devices, abandoned) = assemble_devices(&secs);
    assert_eq!(abandoned.len(), 0);
    assert_eq!(devices.len(), 2);

    // The legacy entry: adapter section field named by the device address.
    let legacy = &devices[0];
    assert_eq!(legacy.address.0, vec![0x4c, 0x87, 0x5d, 0x26, 0xdc, 0x9f]);
    assert_eq!(legacy.parent_address.0, vec![0xc0, 0xfb, 0xf9, 0x60, 0x1c, 0x13]);
    assert_eq!(
        legacy.ltk.0,
        vec![0xc2, 0x90, 0x19, 0x3b, 0x1e, 0xbe, 0xc7, 0xd0, 0x18, 0xc6, 0x4f, 0xe9, 0x67, 0xad,
            0x6b, 0xd5]
    );
    assert!(legacy.e_rand.is_none());
    assert!(legacy.e_div.is_none());
    assert!(legacy.irk.is_none());
    assert!(legacy.csrk.is_none());

    // The extended entry: its own section with an explicit address field.
    let ext = &devices[1];
    assert_eq!(ext.address.0, vec![0xc8, 0x29, 0x0a, 0x11, 0xf4, 0xc1]);
    assert_eq!(ext.parent_address.0, vec![0xc0, 0xfb, 0xf9, 0x60, 0x1c, 0x13]);
    assert_eq!(
        ext.ltk.0,
        vec![0xfc, 0xea, 0xf8, 0x3e, 0xe3, 0xee, 0xee, 0xd0, 0x96, 0x61, 0x96, 0x2a, 0x6e, 0xb0,
            0x33, 0x8a]
    );
    assert_eq!(
        ext.e_rand.as_ref().unwrap().0,
        vec![0x11, 0x22, 0x33, 0x44, 0x55, 0x66, 0x77, 0x88]
    );
    // dword payloads are decimal: 69 is 0x45.
    assert_eq!(ext.e_div.as_ref().unwrap().0, vec![69, 0, 0, 0]);
    assert_eq!(
        ext.irk.as_ref().unwrap().0,
        vec![0x0f, 0x1e, 0x2d, 0x3c, 0x4b, 0x5a, 0x69, 0x78, 0x87, 0x96, 0xa5, 0xb4, 0xc3, 0xd2,
            0xe1, 0xf0]
    );
    assert!(ext.csrk.is_none());
}

#[test]
fn malformed_legacy_candidate_is_abandoned_and_run_continues() {
    let lines = vec![
        format!("[{}\\c0fbf9601c13]", KEYS_BRANCH),
        String::from("\"aaaaaaaaaaaa\"=hex:c2,90"),
        String::from("\"4c875d26dc9f\"=hex:c2,90,19,3b,1e,be,c7,d0,18,c6,4f,e9,67,ad,6b,d5"),
    ];
    let secs = parse_sections(&export_text(&lines)).unwrap();
    let (devices, abandoned) = assemble_devices(&secs);
    assert_eq!(devices.len(), 1);
    assert_eq!(devices[0].address.0, vec![0x4c, 0x87, 0x5d, 0x26, 0xdc, 0x9f]);
    assert_eq!(abandoned, vec![String::from("aaaaaaaaaaaa")]);
}

#[test]
fn extended_entry_without_long_term_key_is_abandoned() {
    let path = format!("{}\\c0fbf9601c13\\0123456789ab", KEYS_BRANCH);
    let lines = vec![
        format!("[{}]", path),
        String::from("\"Address\"=hex(b):c1,f4,11,0a,29,c8,00,00"),
    ];
    let secs = parse_sections(&export_text(&lines)).unwrap();
    let (devices, abandoned) = assemble_devices(&secs);
    assert_eq!(devices.len(), 0);
    assert_eq!(abandoned, vec![path]);
}

#[test]
fn sections_at_other_depths_are_ignored() {
    let lines = vec![
        format!("[{}]", KEYS_BRANCH),
        String::from("\"MasterIRK\"=hex:fc,ea,f8,3e,e3,ee,ee,d0,96,61,96,2a,6e,b0,33,8a"),
    ];
    let secs = parse_sections(&export_text(&lines)).unwrap();
    let (devices, abandoned) = assemble_devices(&secs);
    assert_eq!(devices.len(), 0);
    assert_eq!(abandoned.len(), 0);
}

#[test]
fn adapter_housekeeping_fields_are_silently_ignored() {
    let lines = vec![
        format!("[{}\\c0fbf9601c13]", KEYS_BRANCH),
        String::from("\"CentralIRK\"=hex:fc,ea,f8,3e,e3,ee,ee,d0,96,61,96,2a,6e,b0,33,8a"),
    ];
    let secs = parse_sections(&export_text(&lines)).unwrap();
    let (devices, abandoned) = assemble_devices(&secs);
    assert_eq!(devices.len(), 0);
    assert_eq!(abandoned.len(), 0);
}
