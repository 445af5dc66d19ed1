//! Classifying the parsed registry export into canonical device records.
//!
//! Two shapes exist. A legacy entry is a field of an adapter's own section:
//! the field's name is the device's compact address and its value the raw
//! long-term key. An extended entry is a deeper section of its own, carrying
//! an explicit address field beside the key material. A candidate whose raw
//! values are malformed, or which lacks a mandatory field, is abandoned and
//! reported; the run continues with the rest.

use vstd::prelude::*;
use crate::codec::{
    compact_addr_bytes, dword_field_ok, dword_field_val, hex_b_field_bytes, hex_b_field_ok,
    hex_field_bytes, hex_field_ok, le_bytes32, win_addr_bytes,
};
use crate::sections::{find_field, sections_view, FieldV, RegField, RegSection, SectionV};
use crate::text::{chars_to_string, split_chars_on, split_on_char, str_to_chars, subvec};
use crate::uni_bt_device::{UniBtDevice, UniBtDeviceV};
use crate::utils::{is_valid_64_hex, spec_valid_64_hex};
use crate::win_bt_device::{built_device, spec_build_ok, BtDeviceBuilder, Entries51};

verus! {

/// Depth, in `\`-separated segments, of an adapter's own path under the
/// Bluetooth pairing-keys registry branch. A legacy device entry is a field
/// of such a section; an extended device entry is a deeper section whose
/// next-to-last segment is the adapter.
pub const ADAPTER_PATH_DEPTH: usize = 8;

/// The `\`-separated segments of a registry path.
pub open spec fn path_segments(p: Seq<char>) -> Seq<Seq<char>> {
    split_on_char(p, '\\')
}

/// `s` without its leading double quotes.
pub open spec fn strip_quotes_start(s: Seq<char>) -> Seq<char>
    decreases s.len(),
{
    if s.len() > 0 && s[0] == '"' {
        strip_quotes_start(s.drop_first())
    } else {
        s
    }
}

/// `s` without its trailing double quotes.
pub open spec fn strip_quotes_end(s: Seq<char>) -> Seq<char>
    decreases s.len(),
{
    if s.len() > 0 && s.last() == '"' {
        strip_quotes_end(s.drop_last())
    } else {
        s
    }
}

/// `s` without the double quotes the export wraps around field names and
/// values.
pub open spec fn strip_quotes(s: Seq<char>) -> Seq<char> {
    strip_quotes_end(strip_quotes_start(s))
}

/// A field with the quotes stripped from its name and value.
pub open spec fn unquoted_field(f: FieldV) -> FieldV {
    FieldV { name: strip_quotes(f.name), value: strip_quotes(f.value) }
}

/// A run of fields with their quotes stripped.
pub open spec fn unquoted_fields(fields: Seq<FieldV>) -> Seq<FieldV> {
    fields.map_values(|f: FieldV| unquoted_field(f))
}

proof fn lemma_strip_quotes_start_skip(s: Seq<char>, i: int)
    requires
        0 <= i <= s.len(),
        forall|k: int| 0 <= k < i ==> s[k] == '"',
        i == s.len() || s[i] != '"',
    ensures
        strip_quotes_start(s) == s.skip(i),
    decreases i,
{
    if i == 0 {
        assert(s.skip(0) =~= s);
    } else {
        lemma_strip_quotes_start_skip(s.drop_first(), i - 1);
        assert(s.drop_first().skip(i - 1) =~= s.skip(i));
    }
}

proof fn lemma_strip_quotes_end_take(s: Seq<char>, j: int)
    requires
        0 <= j <= s.len(),
        forall|k: int| j <= k < s.len() ==> s[k] == '"',
        j == 0 || s[j - 1] != '"',
    ensures
        strip_quotes_end(s) == s.take(j),
    decreases s.len() - j,
{
    if j == s.len() {
        assert(s.take(j) =~= s);
    } else {
        lemma_strip_quotes_end_take(s.drop_last(), j);
        assert(s.drop_last().take(j) =~= s.take(j));
    }
}

/// `s` with its surrounding double quotes stripped.
fn unquote(s: &str) -> (r: String)
    ensures
        r@ == strip_quotes(s@),
{
    let chars = str_to_chars(s);
    let n = chars.len();
    let mut i: usize = 0;
    while i < n && chars[i] == '"'
        invariant
            0 <= i <= n,
            n == chars@.len(),
            forall|k: int| 0 <= k < i ==> chars@[k] == '"',
        decreases n - i,
    {
        i = i + 1;
    }
    let mut j: usize = n;
    while j > i && chars[j - 1] == '"'
        invariant
            i <= j <= n,
            n == chars@.len(),
            forall|k: int| j <= k < n ==> chars@[k] == '"',
        decreases j,
    {
        j = j - 1;
    }
    proof {
        lemma_strip_quotes_start_skip(chars@, i as int);
        lemma_strip_quotes_end_take(chars@.skip(i as int), j - i);
        assert(chars@.skip(i as int).take(j - i) =~= chars@.subrange(i as int, j as int));
    }
    chars_to_string(&subvec(&chars, i, j))
}

/// A copy of the section with the quotes stripped from every field's name
/// and value; the path keeps its exact form.
fn unquote_section(sec: &RegSection) -> (r: RegSection)
    ensures
        r@.name == sec@.name,
        r@.fields == unquoted_fields(sec@.fields),
{
    let n = sec.fields.len();
    let mut fields: Vec<RegField> = Vec::new();
    let mut i: usize = 0;
    while i < n
        invariant
            0 <= i <= n,
            n == sec@.fields.len(),
            fields@.map_values(|f: RegField| f@) == unquoted_fields(sec@.fields.take(i as int)),
        decreases n - i,
    {
        let f = &sec.fields[i];
        let nf = RegField { name: unquote(f.name.as_str()), value: unquote(f.value.as_str()) };
        let ghost before = fields@.map_values(|f: RegField| f@);
        fields.push(nf);
        proof {
            assert(fields@.map_values(|f: RegField| f@) =~= before.push(unquoted_field(
                sec@.fields[i as int],
            )));
            assert(unquoted_fields(sec@.fields.take(i + 1)) =~= unquoted_fields(
                sec@.fields.take(i as int),
            ).push(unquoted_field(sec@.fields[i as int])));
        }
        i = i + 1;
    }
    proof {
        assert(sec@.fields.take(n as int) =~= sec@.fields);
    }
    let r = RegSection { name: sec.name.clone(), fields };
    proof {
        assert(r@.fields =~= unquoted_fields(sec@.fields));
    }
    r
}

/// The views of a run of device records.
pub open spec fn dev_views(s: Seq<UniBtDevice>) -> Seq<UniBtDeviceV> {
    s.map_values(|d: UniBtDevice| d@)
}

/// Whether a legacy candidate decodes: the adapter segment is a compact
/// address and the field's value a well-formed sixteen-byte `hex:` key.
pub open spec fn legacy_ok(parent: Seq<char>, f: FieldV) -> bool {
    spec_valid_64_hex(parent) && hex_field_ok(f.value, 16)
}

/// The record a legacy candidate decodes to: only the addresses and the
/// long-term key; a legacy entry never carries the optional keys.
pub open spec fn legacy_device(parent: Seq<char>, f: FieldV) -> UniBtDeviceV {
    UniBtDeviceV {
        address: compact_addr_bytes(f.name),
        parent_address: compact_addr_bytes(parent),
        ltk: hex_field_bytes(f.value, 16),
        e_rand: None,
        e_div: None,
        irk: None,
        csrk: None,
    }
}

/// The devices an adapter section's fields yield, in order, and the names
/// of the candidates that were abandoned. A field whose name is no compact
/// address is an adapter's own house-keeping value and is silently ignored.
pub open spec fn legacy_fold(parent: Seq<char>, fields: Seq<FieldV>) -> (
    Seq<UniBtDeviceV>,
    Seq<Seq<char>>,
)
    decreases fields.len(),
{
    if fields.len() == 0 {
        (Seq::empty(), Seq::empty())
    } else {
        let hd = fields[0];
        let rest = legacy_fold(parent, fields.drop_first());
        if spec_valid_64_hex(hd.name) {
            if legacy_ok(parent, hd) {
                (seq![legacy_device(parent, hd)] + rest.0, rest.1)
            } else {
                (rest.0, seq![hd.name] + rest.1)
            }
        } else {
            rest
        }
    }
}

/// Whether an extended entry decodes: the adapter segment is a compact
/// address, the mandatory address and long-term key fields are present and
/// well-formed, and every optional key present is well-formed.
pub open spec fn extended_ok(parent: Seq<char>, fields: Seq<FieldV>) -> bool {
    &&& spec_valid_64_hex(parent)
    &&& match find_field(fields, "Address"@) {
        Some(v) => hex_b_field_ok(v),
        None => false,
    }
    &&& match find_field(fields, "LTK"@) {
        Some(v) => hex_field_ok(v, 16),
        None => false,
    }
    &&& match find_field(fields, "ERand"@) {
        Some(v) => hex_b_field_ok(v),
        None => true,
    }
    &&& match find_field(fields, "EDIV"@) {
        Some(v) => dword_field_ok(v),
        None => true,
    }
    &&& match find_field(fields, "IRK"@) {
        Some(v) => hex_field_ok(v, 16),
        None => true,
    }
    &&& match find_field(fields, "CSRK"@) {
        Some(v) => hex_field_ok(v, 16),
        None => true,
    }
}

/// The record a well-formed extended entry decodes to.
pub open spec fn extended_device(parent: Seq<char>, fields: Seq<FieldV>) -> UniBtDeviceV {
    UniBtDeviceV {
        address: win_addr_bytes(find_field(fields, "Address"@)->0),
        parent_address: compact_addr_bytes(parent),
        ltk: hex_field_bytes(find_field(fields, "LTK"@)->0, 16),
        e_rand: match find_field(fields, "ERand"@) {
            Some(v) => Some(hex_b_field_bytes(v)),
            None => None,
        },
        e_div: match find_field(fields, "EDIV"@) {
            Some(v) => Some(le_bytes32(dword_field_val(v) as u32)),
            None => None,
        },
        irk: match find_field(fields, "IRK"@) {
            Some(v) => Some(hex_field_bytes(v, 16)),
            None => None,
        },
        csrk: match find_field(fields, "CSRK"@) {
            Some(v) => Some(hex_field_bytes(v, 16)),
            None => None,
        },
    }
}

/// The adapter segment of a legacy (adapter-level) path: its last segment.
pub open spec fn legacy_parent(name: Seq<char>) -> Seq<char> {
    path_segments(name).last()
}

/// The adapter segment of an extended path: its next-to-last segment.
pub open spec fn extended_parent(name: Seq<char>) -> Seq<char> {
    path_segments(name)[path_segments(name).len() - 2]
}

/// The devices and abandoned candidates of the legacy entries, in section
/// order.
pub open spec fn legacy_pass(secs: Seq<SectionV>) -> (Seq<UniBtDeviceV>, Seq<Seq<char>>)
    decreases secs.len(),
{
    if secs.len() == 0 {
        (Seq::empty(), Seq::empty())
    } else {
        let hd = secs[0];
        let rest = legacy_pass(secs.drop_first());
        if path_segments(hd.name).len() == ADAPTER_PATH_DEPTH {
            let one = legacy_fold(legacy_parent(hd.name), unquoted_fields(hd.fields));
            (one.0 + rest.0, one.1 + rest.1)
        } else {
            rest
        }
    }
}

/// The devices and abandoned candidates of the extended entries, in section
/// order; an abandoned extended entry is reported by its path.
pub open spec fn extended_pass(secs: Seq<SectionV>) -> (Seq<UniBtDeviceV>, Seq<Seq<char>>)
    decreases secs.len(),
{
    if secs.len() == 0 {
        (Seq::empty(), Seq::empty())
    } else {
        let hd = secs[0];
        let rest = extended_pass(secs.drop_first());
        if path_segments(hd.name).len() > ADAPTER_PATH_DEPTH {
            if extended_ok(extended_parent(hd.name), unquoted_fields(hd.fields)) {
                (
                    seq![extended_device(extended_parent(hd.name), unquoted_fields(hd.fields))]
                        + rest.0,
                    rest.1,
                )
            } else {
                (rest.0, seq![hd.name] + rest.1)
            }
        } else {
            rest
        }
    }
}

/// Every device the export yields — the legacy entries first, then the
/// extended ones — and the identifiers of every abandoned candidate.
/// Sections at other depths carry no device and are ignored. Duplicates are
/// kept: the same physical device may appear under both shapes.
pub open spec fn assembled_devices(secs: Seq<SectionV>) -> (Seq<UniBtDeviceV>, Seq<Seq<char>>) {
    let l = legacy_pass(secs);
    let e = extended_pass(secs);
    (l.0 + e.0, l.1 + e.1)
}

/// The `\`-separated segments of a section's path.
fn split_path(name: &str) -> (r: Vec<Vec<char>>)
    ensures
        r.deep_view() == path_segments(name@),
        r@.len() >= 1,
{
    let chars = str_to_chars(name);
    split_chars_on(&chars, '\\')
}

/// Scans one adapter-level section for legacy device entries.
fn scan_legacy_section(
    parent: &str,
    sec: &RegSection,
    devices: &mut Vec<UniBtDevice>,
    abandoned: &mut Vec<String>,
)
    ensures
        dev_views(final(devices)@) == dev_views(old(devices)@) + legacy_fold(
            parent@,
            sec@.fields,
        ).0,
        final(abandoned).deep_view() == old(abandoned).deep_view() + legacy_fold(
            parent@,
            sec@.fields,
        ).1,
{
    let ghost fields = sec@.fields;
    proof {
        assert(fields.skip(0) =~= fields);
    }
    let n = sec.fields.len();
    let mut j: usize = 0;
    while j < n
        invariant
            0 <= j <= n,
            n == sec@.fields.len(),
            fields == sec@.fields,
            dev_views(old(devices)@) + legacy_fold(parent@, fields).0 == dev_views(devices@)
                + legacy_fold(parent@, fields.skip(j as int)).0,
            old(abandoned).deep_view() + legacy_fold(parent@, fields).1 == abandoned.deep_view()
                + legacy_fold(parent@, fields.skip(j as int)).1,
        decreases n - j,
    {
        proof {
            assert(fields.skip(j as int).drop_first() =~= fields.skip(j + 1));
            assert(fields.skip(j as int)[0] == fields[j as int]);
        }
        let ghost fv = fields[j as int];
        let field = &sec.fields[j];
        proof {
            assert(field@ == fv);
        }
        if is_valid_64_hex(field.name.as_str()) {
            let b = BtDeviceBuilder::new().address(field.name.clone()).ltk(
                field.value.clone(),
            ).parent_address(parent.to_owned());
            match b.build() {
                Ok(d) => {
                    let ghost before = dev_views(devices@);
                    proof {
                        assert(d@ =~~= legacy_device(parent@, fv));
                    }
                    devices.push(d);
                    proof {
                        assert(dev_views(devices@) =~= before.push(legacy_device(parent@, fv)));
                        assert(before.push(legacy_device(parent@, fv)) =~= before + seq![
                            legacy_device(parent@, fv),
                        ]);
                        assert(dev_views(devices@) + legacy_fold(parent@, fields.skip(j + 1)).0
                            =~= before + legacy_fold(parent@, fields.skip(j as int)).0);
                    }
                },
                Err(_) => {
                    let ghost before = abandoned.deep_view();
                    abandoned.push(field.name.clone());
                    proof {
                        assert(abandoned.deep_view() =~= before.push(fv.name));
                        assert(abandoned.deep_view() + legacy_fold(parent@, fields.skip(j + 1)).1
                            =~= before + legacy_fold(parent@, fields.skip(j as int)).1);
                    }
                },
            }
        }
        j = j + 1;
    }
    proof {
        assert(fields.skip(n as int) =~= Seq::<FieldV>::empty());
        assert(legacy_fold(parent@, fields.skip(n as int)).0 =~= Seq::<UniBtDeviceV>::empty());
        assert(legacy_fold(parent@, fields.skip(n as int)).1 =~= Seq::<Seq<char>>::empty());
        assert(dev_views(devices@) =~= dev_views(devices@) + legacy_fold(
            parent@,
            fields.skip(n as int),
        ).0);
        assert(abandoned.deep_view() =~= abandoned.deep_view() + legacy_fold(
            parent@,
            fields.skip(n as int),
        ).1);
    }
}

/// Builds the device of one extended section, or reports it abandoned.
fn scan_extended_section(
    parent: &str,
    sec: &RegSection,
    devices: &mut Vec<UniBtDevice>,
    abandoned: &mut Vec<String>,
)
    ensures
        dev_views(final(devices)@) == dev_views(old(devices)@) + (if extended_ok(
            parent@,
            sec@.fields,
        ) {
            seq![extended_device(parent@, sec@.fields)]
        } else {
            Seq::empty()
        }),
        final(abandoned).deep_view() == old(abandoned).deep_view() + (if extended_ok(
            parent@,
            sec@.fields,
        ) {
            Seq::empty()
        } else {
            seq![sec@.name]
        }),
{
    match Entries51::from_section(sec) {
        Ok(e) => {
            let b = BtDeviceBuilder::new().parent_address(parent.to_owned()).entries51(e);
            let ghost bb = b;
            match b.build() {
                Ok(d) => {
                    let ghost before = dev_views(devices@);
                    proof {
                        assert(extended_ok(parent@, sec@.fields));
                        assert(d@ =~~= extended_device(parent@, sec@.fields));
                    }
                    devices.push(d);
                    proof {
                        assert(dev_views(devices@) =~= before.push(
                            extended_device(parent@, sec@.fields),
                        ));
                        assert(dev_views(devices@) =~= before + seq![
                            extended_device(parent@, sec@.fields),
                        ]);
                        assert(abandoned.deep_view() =~= abandoned.deep_view()
                            + Seq::<Seq<char>>::empty());
                    }
                },
                Err(_) => {
                    let ghost before = abandoned.deep_view();
                    proof {
                        assert(!spec_build_ok(bb));
                        assert(!extended_ok(parent@, sec@.fields));
                    }
                    abandoned.push(sec.name.clone());
                    proof {
                        assert(abandoned.deep_view() =~= before + seq![sec@.name]);
                        assert(dev_views(devices@) =~= dev_views(devices@)
                            + Seq::<UniBtDeviceV>::empty());
                    }
                },
            }
        },
        Err(_) => {
            let ghost before = abandoned.deep_view();
            proof {
                assert(!extended_ok(parent@, sec@.fields));
            }
            abandoned.push(sec.name.clone());
            proof {
                assert(abandoned.deep_view() =~= before + seq![sec@.name]);
                assert(dev_views(devices@) =~= dev_views(devices@) + Seq::<UniBtDeviceV>::empty());
            }
        },
    }
}

/// Classifies every parsed section and assembles the canonical device
/// records: exactly `assembled_devices` of the sections' views. The second
/// vector names each abandoned candidate, for the caller's warnings.
pub fn assemble_devices(sections: &Vec<RegSection>) -> (r: (Vec<UniBtDevice>, Vec<String>))
    ensures
        dev_views(r.0@) == assembled_devices(sections_view(sections@)).0,
        r.1.deep_view() == assembled_devices(sections_view(sections@)).1,
{
    let ghost sv = sections_view(sections@);
    let mut devices: Vec<UniBtDevice> = Vec::new();
    let mut abandoned: Vec<String> = Vec::new();
    proof {
        assert(sv.skip(0) =~= sv);
        assert(dev_views(devices@) + legacy_pass(sv).0 =~= legacy_pass(sv).0);
        assert(abandoned.deep_view() + legacy_pass(sv).1 =~= legacy_pass(sv).1);
    }
    let n = sections.len();
    let mut i: usize = 0;
    while i < n
        invariant
            0 <= i <= n,
            n == sections@.len(),
            sv == sections_view(sections@),
            dev_views(devices@) + legacy_pass(sv.skip(i as int)).0 == legacy_pass(sv).0,
            abandoned.deep_view() + legacy_pass(sv.skip(i as int)).1 == legacy_pass(sv).1,
        decreases n - i,
    {
        proof {
            assert(sv.skip(i as int).drop_first() =~= sv.skip(i + 1));
            assert(sv.skip(i as int)[0] == sv[i as int]);
        }
        let sec = &sections[i];
        proof {
            assert(sec@ == sv[i as int]);
        }
        let segs = split_path(sec.name.as_str());
        let depth = segs.len();
        if depth == ADAPTER_PATH_DEPTH {
            let parent = chars_to_string(&segs[depth - 1]);
            proof {
                assert(segs.deep_view()[depth - 1] =~= segs@[depth - 1]@);
                assert(parent@ == legacy_parent(sec@.name));
            }
            let usec = unquote_section(sec);
            scan_legacy_section(parent.as_str(), &usec, &mut devices, &mut abandoned);
            proof {
                assert(dev_views(devices@) + legacy_pass(sv.skip(i + 1)).0 =~= legacy_pass(sv).0);
                assert(abandoned.deep_view() + legacy_pass(sv.skip(i + 1)).1 =~= legacy_pass(
                    sv,
                ).1);
            }
        }
        i = i + 1;
    }
    proof {
        assert(sv.skip(n as int) =~= Seq::<SectionV>::empty());
        assert(dev_views(devices@) =~= legacy_pass(sv).0);
        assert(abandoned.deep_view() =~= legacy_pass(sv).1);
        assert(sv.skip(0) =~= sv);
        assert(dev_views(devices@) + extended_pass(sv).0 =~= legacy_pass(sv).0 + extended_pass(
            sv,
        ).0);
        assert(abandoned.deep_view() + extended_pass(sv).1 =~= legacy_pass(sv).1 + extended_pass(
            sv,
        ).1);
    }
    let mut i2: usize = 0;
    while i2 < n
        invariant
            0 <= i2 <= n,
            n == sections@.len(),
            sv == sections_view(sections@),
            dev_views(devices@) + extended_pass(sv.skip(i2 as int)).0 == legacy_pass(sv).0
                + extended_pass(sv).0,
            abandoned.deep_view() + extended_pass(sv.skip(i2 as int)).1 == legacy_pass(sv).1
                + extended_pass(sv).1,
        decreases n - i2,
    {
        proof {
            assert(sv.skip(i2 as int).drop_first() =~= sv.skip(i2 + 1));
            assert(sv.skip(i2 as int)[0] == sv[i2 as int]);
        }
        let sec = &sections[i2];
        proof {
            assert(sec@ == sv[i2 as int]);
        }
        let segs = split_path(sec.name.as_str());
        let depth = segs.len();
        if depth > ADAPTER_PATH_DEPTH {
            let parent = chars_to_string(&segs[depth - 2]);
            proof {
                assert(segs.deep_view()[depth - 2] =~= segs@[depth - 2]@);
                assert(parent@ == extended_parent(sec@.name));
            }
            let usec = unquote_section(sec);
            scan_extended_section(parent.as_str(), &usec, &mut devices, &mut abandoned);
            proof {
                assert(dev_views(devices@) + extended_pass(sv.skip(i2 + 1)).0 =~= legacy_pass(
                    sv,
                ).0 + extended_pass(sv).0);
                assert(abandoned.deep_view() + extended_pass(sv.skip(i2 + 1)).1 =~= legacy_pass(
                    sv,
                ).1 + extended_pass(sv).1);
            }
        }
        i2 = i2 + 1;
    }
    proof {
        assert(sv.skip(n as int) =~= Seq::<SectionV>::empty());
        assert(dev_views(devices@) =~= assembled_devices(sv).0);
        assert(abandoned.deep_view() =~= assembled_devices(sv).1);
    }
    (devices, abandoned)
}

} // verus!
