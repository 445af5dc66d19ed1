//! Reading and writing the Linux pairing record text, and the per-device
//! update plan: parse the existing record, merge the exported credentials
//! into it, and serialize it back in the same sectioned form with every
//! untouched field intact.

use vstd::prelude::*;
use crate::errors::BtError;
use crate::linux_bt_device::{
    merged_device, BtDevice, BtDeviceBuilder, BtDeviceV, ConnectionParameters,
    ConnectionParametersV, DeviceId, DeviceIdV, General, GeneralV, IdentityResolvingKey, LinkKey,
    LinkKeyV, LocalSignatureKey, LongTermKey, LtkSectionV, PeripheralLongTermKey, SingleKeyV,
    SlaveLongTermKey,
};
use crate::sections::{
    emit_field, emit_header, field_text, field_value, find_field, find_section, header_text,
    parse_sections, section_index, sections_view, spec_parse_sections, FieldV, RegSection,
    SectionV,
};
use crate::text::chars_to_string;
use crate::uni_bt_device::{Csrk, EDiv, ERand, Irk, Ltk, UniBtDevice};

verus! {

/// The General section a run of fields describes, if every required field
/// is present.
pub open spec fn general_of(fields: Seq<FieldV>) -> Option<GeneralV> {
    if find_field(fields, "Name"@) is Some && find_field(fields, "AddressType"@) is Some
        && find_field(fields, "SupportedTechnologies"@) is Some && find_field(
        fields,
        "Trusted"@,
    ) is Some && find_field(fields, "Blocked"@) is Some && find_field(
        fields,
        "Services"@,
    ) is Some {
        Some(
            GeneralV {
                name: find_field(fields, "Name"@)->0,
                appearance: find_field(fields, "Appearance"@),
                address_type: find_field(fields, "AddressType"@)->0,
                supported_technologies: find_field(fields, "SupportedTechnologies"@)->0,
                trusted: find_field(fields, "Trusted"@)->0,
                blocked: find_field(fields, "Blocked"@)->0,
                wake_allowed: find_field(fields, "WakeAllowed"@),
                services: find_field(fields, "Services"@)->0,
            },
        )
    } else {
        None
    }
}

/// The DeviceID section a run of fields describes.
pub open spec fn device_id_of(fields: Seq<FieldV>) -> Option<DeviceIdV> {
    if find_field(fields, "Source"@) is Some && find_field(fields, "Vendor"@) is Some
        && find_field(fields, "Product"@) is Some && find_field(fields, "Version"@) is Some {
        Some(
            DeviceIdV {
                source: find_field(fields, "Source"@)->0,
                vendor: find_field(fields, "Vendor"@)->0,
                product: find_field(fields, "Product"@)->0,
                version: find_field(fields, "Version"@)->0,
            },
        )
    } else {
        None
    }
}

/// The ConnectionParameters section a run of fields describes.
pub open spec fn connection_parameters_of(fields: Seq<FieldV>) -> Option<ConnectionParametersV> {
    if find_field(fields, "MinInterval"@) is Some && find_field(fields, "MaxInterval"@) is Some
        && find_field(fields, "Latency"@) is Some && find_field(fields, "Timeout"@) is Some {
        Some(
            ConnectionParametersV {
                min_interval: find_field(fields, "MinInterval"@)->0,
                max_interval: find_field(fields, "MaxInterval"@)->0,
                latency: find_field(fields, "Latency"@)->0,
                timeout: find_field(fields, "Timeout"@)->0,
            },
        )
    } else {
        None
    }
}

/// The LinkKey section a run of fields describes.
pub open spec fn link_key_of(fields: Seq<FieldV>) -> Option<LinkKeyV> {
    if find_field(fields, "Key"@) is Some && find_field(fields, "Type"@) is Some && find_field(
        fields,
        "PINLength"@,
    ) is Some {
        Some(
            LinkKeyV {
                key: find_field(fields, "Key"@)->0,
                key_type: find_field(fields, "Type"@)->0,
                pin_length: find_field(fields, "PINLength"@)->0,
            },
        )
    } else {
        None
    }
}

/// A single-key section (IdentityResolvingKey, LocalSignatureKey).
pub open spec fn single_key_of(fields: Seq<FieldV>) -> Option<SingleKeyV> {
    if find_field(fields, "Key"@) is Some {
        Some(SingleKeyV { key: find_field(fields, "Key"@)->0 })
    } else {
        None
    }
}

/// A long-term-key section (SlaveLongTermKey, PeripheralLongTermKey,
/// LongTermKey).
pub open spec fn ltk_section_of(fields: Seq<FieldV>) -> Option<LtkSectionV> {
    if find_field(fields, "Key"@) is Some && find_field(fields, "Authenticated"@) is Some
        && find_field(fields, "EncSize"@) is Some && find_field(fields, "EDiv"@) is Some
        && find_field(fields, "Rand"@) is Some {
        Some(
            LtkSectionV {
                key: find_field(fields, "Key"@)->0,
                authenticated: find_field(fields, "Authenticated"@)->0,
                enc_size: find_field(fields, "EncSize"@)->0,
                e_div: find_field(fields, "EDiv"@)->0,
                rand: find_field(fields, "Rand"@)->0,
            },
        )
    } else {
        None
    }
}

/// The record a run of sections describes: each known section present takes
/// its first occurrence and must carry its required fields; unknown sections
/// are ignored; a known section absent stays absent.
pub open spec fn record_of(secs: Seq<SectionV>) -> Option<BtDeviceV> {
    let general = match find_section(secs, "General"@) {
        Some(s) => Some(general_of(s.fields)),
        None => None,
    };
    let device_id = match find_section(secs, "DeviceID"@) {
        Some(s) => Some(device_id_of(s.fields)),
        None => None,
    };
    let connection_parameters = match find_section(secs, "ConnectionParameters"@) {
        Some(s) => Some(connection_parameters_of(s.fields)),
        None => None,
    };
    let link_key = match find_section(secs, "LinkKey"@) {
        Some(s) => Some(link_key_of(s.fields)),
        None => None,
    };
    let identity_resolving_key = match find_section(secs, "IdentityResolvingKey"@) {
        Some(s) => Some(single_key_of(s.fields)),
        None => None,
    };
    let slave_long_term_key = match find_section(secs, "SlaveLongTermKey"@) {
        Some(s) => Some(ltk_section_of(s.fields)),
        None => None,
    };
    let peripheral_long_term_key = match find_section(secs, "PeripheralLongTermKey"@) {
        Some(s) => Some(ltk_section_of(s.fields)),
        None => None,
    };
    let local_signature_key = match find_section(secs, "LocalSignatureKey"@) {
        Some(s) => Some(single_key_of(s.fields)),
        None => None,
    };
    let long_term_key = match find_section(secs, "LongTermKey"@) {
        Some(s) => Some(ltk_section_of(s.fields)),
        None => None,
    };
    if (general is Some ==> general->0 is Some) && (device_id is Some ==> device_id->0 is Some) && (
    connection_parameters is Some ==> connection_parameters->0 is Some) && (link_key is Some
        ==> link_key->0 is Some) && (identity_resolving_key is Some ==> identity_resolving_key->0
        is Some) && (slave_long_term_key is Some ==> slave_long_term_key->0 is Some) && (
    peripheral_long_term_key is Some ==> peripheral_long_term_key->0 is Some) && (
    local_signature_key is Some ==> local_signature_key->0 is Some) && (long_term_key is Some
        ==> long_term_key->0 is Some) {
        Some(
            BtDeviceV {
                general: match general {
                    Some(g) => g,
                    None => None,
                },
                device_id: match device_id {
                    Some(d) => d,
                    None => None,
                },
                connection_parameters: match connection_parameters {
                    Some(c) => c,
                    None => None,
                },
                link_key: match link_key {
                    Some(l) => l,
                    None => None,
                },
                identity_resolving_key: match identity_resolving_key {
                    Some(i) => i,
                    None => None,
                },
                slave_long_term_key: match slave_long_term_key {
                    Some(s) => s,
                    None => None,
                },
                peripheral_long_term_key: match peripheral_long_term_key {
                    Some(p) => p,
                    None => None,
                },
                local_signature_key: match local_signature_key {
                    Some(l) => l,
                    None => None,
                },
                long_term_key: match long_term_key {
                    Some(l) => l,
                    None => None,
                },
            },
        )
    } else {
        None
    }
}

/// The record a pairing record text describes, or `None` where the text
/// does not parse or a present section lacks a required field.
pub open spec fn spec_parse_info(text: Seq<char>) -> Option<BtDeviceV> {
    match spec_parse_sections(text) {
        Some(secs) => record_of(secs),
        None => None,
    }
}

impl General {
    /// The General section of a parsed record.
    pub fn from_section(sec: &RegSection) -> (r: Result<General, BtError>)
        ensures
            r is Ok <==> general_of(sec@.fields) is Some,
            r is Ok ==> r->Ok_0@ == general_of(sec@.fields)->0,
            r is Err ==> r->Err_0 == BtError::MalformedRecord,
    {
        let name = match field_value(sec, "Name") {
            Some(v) => v,
            None => {
                return Err(BtError::MalformedRecord);
            },
        };
        let address_type = match field_value(sec, "AddressType") {
            Some(v) => v,
            None => {
                return Err(BtError::MalformedRecord);
            },
        };
        let supported_technologies = match field_value(sec, "SupportedTechnologies") {
            Some(v) => v,
            None => {
                return Err(BtError::MalformedRecord);
            },
        };
        let trusted = match field_value(sec, "Trusted") {
            Some(v) => v,
            None => {
                return Err(BtError::MalformedRecord);
            },
        };
        let blocked = match field_value(sec, "Blocked") {
            Some(v) => v,
            None => {
                return Err(BtError::MalformedRecord);
            },
        };
        let services = match field_value(sec, "Services") {
            Some(v) => v,
            None => {
                return Err(BtError::MalformedRecord);
            },
        };
        let appearance = field_value(sec, "Appearance");
        let wake_allowed = field_value(sec, "WakeAllowed");
        Ok(
            General {
                name,
                appearance,
                address_type,
                supported_technologies,
                trusted,
                blocked,
                wake_allowed,
                services,
            },
        )
    }
}

impl DeviceId {
    /// The DeviceID section of a parsed record.
    pub fn from_section(sec: &RegSection) -> (r: Result<DeviceId, BtError>)
        ensures
            r is Ok <==> device_id_of(sec@.fields) is Some,
            r is Ok ==> r->Ok_0@ == device_id_of(sec@.fields)->0,
            r is Err ==> r->Err_0 == BtError::MalformedRecord,
    {
        let source = match field_value(sec, "Source") {
            Some(v) => v,
            None => {
                return Err(BtError::MalformedRecord);
            },
        };
        let vendor = match field_value(sec, "Vendor") {
            Some(v) => v,
            None => {
                return Err(BtError::MalformedRecord);
            },
        };
        let product = match field_value(sec, "Product") {
            Some(v) => v,
            None => {
                return Err(BtError::MalformedRecord);
            },
        };
        let version = match field_value(sec, "Version") {
            Some(v) => v,
            None => {
                return Err(BtError::MalformedRecord);
            },
        };
        Ok(DeviceId { source, vendor, product, version })
    }
}

impl ConnectionParameters {
    /// The ConnectionParameters section of a parsed record.
    pub fn from_section(sec: &RegSection) -> (r: Result<ConnectionParameters, BtError>)
        ensures
            r is Ok <==> connection_parameters_of(sec@.fields) is Some,
            r is Ok ==> r->Ok_0@ == connection_parameters_of(sec@.fields)->0,
            r is Err ==> r->Err_0 == BtError::MalformedRecord,
    {
        let min_interval = match field_value(sec, "MinInterval") {
            Some(v) => v,
            None => {
                return Err(BtError::MalformedRecord);
            },
        };
        let max_interval = match field_value(sec, "MaxInterval") {
            Some(v) => v,
            None => {
                return Err(BtError::MalformedRecord);
            },
        };
        let latency = match field_value(sec, "Latency") {
            Some(v) => v,
            None => {
                return Err(BtError::MalformedRecord);
            },
        };
        let timeout = match field_value(sec, "Timeout") {
            Some(v) => v,
            None => {
                return Err(BtError::MalformedRecord);
            },
        };
        Ok(ConnectionParameters { min_interval, max_interval, latency, timeout })
    }
}

impl LinkKey {
    /// The LinkKey section of a parsed record.
    pub fn from_section(sec: &RegSection) -> (r: Result<LinkKey, BtError>)
        ensures
            r is Ok <==> link_key_of(sec@.fields) is Some,
            r is Ok ==> r->Ok_0@ == link_key_of(sec@.fields)->0,
            r is Err ==> r->Err_0 == BtError::MalformedRecord,
    {
        let key = match field_value(sec, "Key") {
            Some(v) => v,
            None => {
                return Err(BtError::MalformedRecord);
            },
        };
        let key_type = match field_value(sec, "Type") {
            Some(v) => v,
            None => {
                return Err(BtError::MalformedRecord);
            },
        };
        let pin_length = match field_value(sec, "PINLength") {
            Some(v) => v,
            None => {
                return Err(BtError::MalformedRecord);
            },
        };
        Ok(LinkKey { key, key_type, pin_length })
    }
}

impl IdentityResolvingKey {
    /// The IdentityResolvingKey section of a parsed record.
    pub fn from_section(sec: &RegSection) -> (r: Result<IdentityResolvingKey, BtError>)
        ensures
            r is Ok <==> single_key_of(sec@.fields) is Some,
            r is Ok ==> r->Ok_0@ == single_key_of(sec@.fields)->0,
            r is Err ==> r->Err_0 == BtError::MalformedRecord,
    {
        match field_value(sec, "Key") {
            Some(key) => Ok(IdentityResolvingKey { key }),
            None => Err(BtError::MalformedRecord),
        }
    }
}

impl LocalSignatureKey {
    /// The LocalSignatureKey section of a parsed record.
    pub fn from_section(sec: &RegSection) -> (r: Result<LocalSignatureKey, BtError>)
        ensures
            r is Ok <==> single_key_of(sec@.fields) is Some,
            r is Ok ==> r->Ok_0@ == single_key_of(sec@.fields)->0,
            r is Err ==> r->Err_0 == BtError::MalformedRecord,
    {
        match field_value(sec, "Key") {
            Some(key) => Ok(LocalSignatureKey { key }),
            None => Err(BtError::MalformedRecord),
        }
    }
}

/// The five raw values of a long-term-key section, in field order.
fn ltk_section_values(sec: &RegSection) -> (r: Result<
    (String, String, String, String, String),
    BtError,
>)
    ensures
        r is Ok <==> ltk_section_of(sec@.fields) is Some,
        r is Ok ==> {
            let v = ltk_section_of(sec@.fields)->0;
            &&& r->Ok_0.0@ == v.key
            &&& r->Ok_0.1@ == v.authenticated
            &&& r->Ok_0.2@ == v.enc_size
            &&& r->Ok_0.3@ == v.e_div
            &&& r->Ok_0.4@ == v.rand
        },
        r is Err ==> r->Err_0 == BtError::MalformedRecord,
{
    let key = match field_value(sec, "Key") {
        Some(v) => v,
        None => {
            return Err(BtError::MalformedRecord);
        },
    };
    let authenticated = match field_value(sec, "Authenticated") {
        Some(v) => v,
        None => {
            return Err(BtError::MalformedRecord);
        },
    };
    let enc_size = match field_value(sec, "EncSize") {
        Some(v) => v,
        None => {
            return Err(BtError::MalformedRecord);
        },
    };
    let e_div = match field_value(sec, "EDiv") {
        Some(v) => v,
        None => {
            return Err(BtError::MalformedRecord);
        },
    };
    let rand = match field_value(sec, "Rand") {
        Some(v) => v,
        None => {
            return Err(BtError::MalformedRecord);
        },
    };
    Ok((key, authenticated, enc_size, e_div, rand))
}

impl SlaveLongTermKey {
    /// The SlaveLongTermKey section of a parsed record.
    pub fn from_section(sec: &RegSection) -> (r: Result<SlaveLongTermKey, BtError>)
        ensures
            r is Ok <==> ltk_section_of(sec@.fields) is Some,
            r is Ok ==> r->Ok_0@ == ltk_section_of(sec@.fields)->0,
            r is Err ==> r->Err_0 == BtError::MalformedRecord,
    {
        match ltk_section_values(sec) {
            Ok((key, authenticated, enc_size, e_div, rand)) => Ok(
                SlaveLongTermKey { key, authenticated, enc_size, e_div, rand },
            ),
            Err(e) => Err(e),
        }
    }
}

impl PeripheralLongTermKey {
    /// The PeripheralLongTermKey section of a parsed record.
    pub fn from_section(sec: &RegSection) -> (r: Result<PeripheralLongTermKey, BtError>)
        ensures
            r is Ok <==> ltk_section_of(sec@.fields) is Some,
            r is Ok ==> r->Ok_0@ == ltk_section_of(sec@.fields)->0,
            r is Err ==> r->Err_0 == BtError::MalformedRecord,
    {
        match ltk_section_values(sec) {
            Ok((key, authenticated, enc_size, e_div, rand)) => Ok(
                PeripheralLongTermKey { key, authenticated, enc_size, e_div, rand },
            ),
            Err(e) => Err(e),
        }
    }
}

impl LongTermKey {
    /// The LongTermKey section of a parsed record.
    pub fn from_section(sec: &RegSection) -> (r: Result<LongTermKey, BtError>)
        ensures
            r is Ok <==> ltk_section_of(sec@.fields) is Some,
            r is Ok ==> r->Ok_0@ == ltk_section_of(sec@.fields)->0,
            r is Err ==> r->Err_0 == BtError::MalformedRecord,
    {
        match ltk_section_values(sec) {
            Ok((key, authenticated, enc_size, e_div, rand)) => Ok(
                LongTermKey { key, authenticated, enc_size, e_div, rand },
            ),
            Err(e) => Err(e),
        }
    }
}

/// Parses a pairing record text into its typed record: exactly
/// `spec_parse_info`. Any failure — the sectioned grammar broken, or a
/// present section lacking a required field — rejects the record.
#[verifier::rlimit(100)]
pub fn parse_info(text: &str) -> (r: Result<BtDevice, BtError>)
    ensures
        r is Ok <==> spec_parse_info(text@) is Some,
        r is Ok ==> r->Ok_0@ == spec_parse_info(text@)->0,
        r is Err ==> r->Err_0 == BtError::MalformedRecord,
{
    let secs = match parse_sections(text) {
        Ok(s) => s,
        Err(_) => {
            return Err(BtError::MalformedRecord);
        },
    };
    let general = match section_index(&secs, "General") {
        Some(i) => match General::from_section(&secs[i]) {
            Ok(g) => Some(g),
            Err(e) => {
                return Err(e);
            },
        },
        None => None,
    };
    let device_id = match section_index(&secs, "DeviceID") {
        Some(i) => match DeviceId::from_section(&secs[i]) {
            Ok(g) => Some(g),
            Err(e) => {
                return Err(e);
            },
        },
        None => None,
    };
    let connection_parameters = match section_index(&secs, "ConnectionParameters") {
        Some(i) => match ConnectionParameters::from_section(&secs[i]) {
            Ok(g) => Some(g),
            Err(e) => {
                return Err(e);
            },
        },
        None => None,
    };
    let link_key = match section_index(&secs, "LinkKey") {
        Some(i) => match LinkKey::from_section(&secs[i]) {
            Ok(g) => Some(g),
            Err(e) => {
                return Err(e);
            },
        },
        None => None,
    };
    let identity_resolving_key = match section_index(&secs, "IdentityResolvingKey") {
        Some(i) => match IdentityResolvingKey::from_section(&secs[i]) {
            Ok(g) => Some(g),
            Err(e) => {
                return Err(e);
            },
        },
        None => None,
    };
    let slave_long_term_key = match section_index(&secs, "SlaveLongTermKey") {
        Some(i) => match SlaveLongTermKey::from_section(&secs[i]) {
            Ok(g) => Some(g),
            Err(e) => {
                return Err(e);
            },
        },
        None => None,
    };
    let peripheral_long_term_key = match section_index(&secs, "PeripheralLongTermKey") {
        Some(i) => match PeripheralLongTermKey::from_section(&secs[i]) {
            Ok(g) => Some(g),
            Err(e) => {
                return Err(e);
            },
        },
        None => None,
    };
    let local_signature_key = match section_index(&secs, "LocalSignatureKey") {
        Some(i) => match LocalSignatureKey::from_section(&secs[i]) {
            Ok(g) => Some(g),
            Err(e) => {
                return Err(e);
            },
        },
        None => None,
    };
    let long_term_key = match section_index(&secs, "LongTermKey") {
        Some(i) => match LongTermKey::from_section(&secs[i]) {
            Ok(g) => Some(g),
            Err(e) => {
                return Err(e);
            },
        },
        None => None,
    };
    let dev = BtDevice {
        general,
        device_id,
        connection_parameters,
        link_key,
        identity_resolving_key,
        slave_long_term_key,
        peripheral_long_term_key,
        local_signature_key,
        long_term_key,
    };
    proof {
        assert(dev@ =~~= record_of(sections_view(secs@))->0);
    }
    Ok(dev)
}

/// The text of an optional field: nothing where the record has none.
pub open spec fn opt_field_text(name: Seq<char>, v: Option<Seq<char>>) -> Seq<char> {
    match v {
        Some(x) => field_text(name, x),
        None => Seq::empty(),
    }
}

/// The serialized General section.
pub open spec fn general_text(g: GeneralV) -> Seq<char> {
    header_text("General"@) + field_text("Name"@, g.name) + opt_field_text(
        "Appearance"@,
        g.appearance,
    ) + field_text("AddressType"@, g.address_type) + field_text(
        "SupportedTechnologies"@,
        g.supported_technologies,
    ) + field_text("Trusted"@, g.trusted) + field_text("Blocked"@, g.blocked) + opt_field_text(
        "WakeAllowed"@,
        g.wake_allowed,
    ) + field_text("Services"@, g.services)
}

/// The serialized DeviceID section.
pub open spec fn device_id_text(d: DeviceIdV) -> Seq<char> {
    header_text("DeviceID"@) + field_text("Source"@, d.source) + field_text("Vendor"@, d.vendor)
        + field_text("Product"@, d.product) + field_text("Version"@, d.version)
}

/// The serialized ConnectionParameters section.
pub open spec fn connection_parameters_text(c: ConnectionParametersV) -> Seq<char> {
    header_text("ConnectionParameters"@) + field_text("MinInterval"@, c.min_interval) + field_text(
        "MaxInterval"@,
        c.max_interval,
    ) + field_text("Latency"@, c.latency) + field_text("Timeout"@, c.timeout)
}

/// The serialized LinkKey section.
pub open spec fn link_key_text(l: LinkKeyV) -> Seq<char> {
    header_text("LinkKey"@) + field_text("Key"@, l.key) + field_text("Type"@, l.key_type)
        + field_text("PINLength"@, l.pin_length)
}

/// The serialized text of a single-key section under the given header.
pub open spec fn single_key_text(name: Seq<char>, k: SingleKeyV) -> Seq<char> {
    header_text(name) + field_text("Key"@, k.key)
}

/// The serialized text of a long-term-key section under the given header.
pub open spec fn ltk_section_text(name: Seq<char>, s: LtkSectionV) -> Seq<char> {
    header_text(name) + field_text("Key"@, s.key) + field_text("Authenticated"@, s.authenticated)
        + field_text("EncSize"@, s.enc_size) + field_text("EDiv"@, s.e_div) + field_text(
        "Rand"@,
        s.rand,
    )
}

/// The serialized pairing record: the present sections in their fixed
/// order, each field on its own line, absent sections and fields omitted.
pub open spec fn info_text(d: BtDeviceV) -> Seq<char> {
    (match d.general {
        Some(g) => general_text(g),
        None => Seq::empty(),
    }) + (match d.device_id {
        Some(x) => device_id_text(x),
        None => Seq::empty(),
    }) + (match d.connection_parameters {
        Some(x) => connection_parameters_text(x),
        None => Seq::empty(),
    }) + (match d.link_key {
        Some(x) => link_key_text(x),
        None => Seq::empty(),
    }) + (match d.identity_resolving_key {
        Some(x) => single_key_text("IdentityResolvingKey"@, x),
        None => Seq::empty(),
    }) + (match d.slave_long_term_key {
        Some(x) => ltk_section_text("SlaveLongTermKey"@, x),
        None => Seq::empty(),
    }) + (match d.peripheral_long_term_key {
        Some(x) => ltk_section_text("PeripheralLongTermKey"@, x),
        None => Seq::empty(),
    }) + (match d.local_signature_key {
        Some(x) => single_key_text("LocalSignatureKey"@, x),
        None => Seq::empty(),
    }) + (match d.long_term_key {
        Some(x) => ltk_section_text("LongTermKey"@, x),
        None => Seq::empty(),
    })
}

/// Appends an optional field line.
fn emit_opt_field(buf: &mut Vec<char>, name: &str, v: &Option<String>)
    ensures
        final(buf)@ == old(buf)@ + opt_field_text(name@, crate::uni_bt_device::opt_view(*v)),
{
    match v {
        Some(x) => emit_field(buf, name, x.as_str()),
        None => {
            proof {
                assert(buf@ =~= old(buf)@ + Seq::<char>::empty());
            }
        },
    }
}

/// Appends the General section.
fn emit_general(buf: &mut Vec<char>, g: &General)
    ensures
        final(buf)@ == old(buf)@ + general_text(g@),
{
    emit_header(buf, "General");
    emit_field(buf, "Name", g.name.as_str());
    emit_opt_field(buf, "Appearance", &g.appearance);
    emit_field(buf, "AddressType", g.address_type.as_str());
    emit_field(buf, "SupportedTechnologies", g.supported_technologies.as_str());
    emit_field(buf, "Trusted", g.trusted.as_str());
    emit_field(buf, "Blocked", g.blocked.as_str());
    emit_opt_field(buf, "WakeAllowed", &g.wake_allowed);
    emit_field(buf, "Services", g.services.as_str());
    proof {
        assert(buf@ =~= old(buf)@ + general_text(g@));
    }
}

/// Appends the DeviceID section.
fn emit_device_id(buf: &mut Vec<char>, d: &DeviceId)
    ensures
        final(buf)@ == old(buf)@ + device_id_text(d@),
{
    emit_header(buf, "DeviceID");
    emit_field(buf, "Source", d.source.as_str());
    emit_field(buf, "Vendor", d.vendor.as_str());
    emit_field(buf, "Product", d.product.as_str());
    emit_field(buf, "Version", d.version.as_str());
    proof {
        assert(buf@ =~= old(buf)@ + device_id_text(d@));
    }
}

/// Appends the ConnectionParameters section.
fn emit_connection_parameters(buf: &mut Vec<char>, c: &ConnectionParameters)
    ensures
        final(buf)@ == old(buf)@ + connection_parameters_text(c@),
{
    emit_header(buf, "ConnectionParameters");
    emit_field(buf, "MinInterval", c.min_interval.as_str());
    emit_field(buf, "MaxInterval", c.max_interval.as_str());
    emit_field(buf, "Latency", c.latency.as_str());
    emit_field(buf, "Timeout", c.timeout.as_str());
    proof {
        assert(buf@ =~= old(buf)@ + connection_parameters_text(c@));
    }
}

/// Appends the LinkKey section.
fn emit_link_key(buf: &mut Vec<char>, l: &LinkKey)
    ensures
        final(buf)@ == old(buf)@ + link_key_text(l@),
{
    emit_header(buf, "LinkKey");
    emit_field(buf, "Key", l.key.as_str());
    emit_field(buf, "Type", l.key_type.as_str());
    emit_field(buf, "PINLength", l.pin_length.as_str());
    proof {
        assert(buf@ =~= old(buf)@ + link_key_text(l@));
    }
}

/// Appends a single-key section under the given header.
fn emit_single_key(buf: &mut Vec<char>, name: &str, key: &str)
    ensures
        final(buf)@ == old(buf)@ + single_key_text(name@, (SingleKeyV { key: key@ })),
{
    emit_header(buf, name);
    emit_field(buf, "Key", key);
    proof {
        assert(buf@ =~= old(buf)@ + single_key_text(name@, (SingleKeyV { key: key@ })));
    }
}

/// Appends a long-term-key section under the given header.
fn emit_ltk_section(
    buf: &mut Vec<char>,
    name: &str,
    key: &str,
    authenticated: &str,
    enc_size: &str,
    e_div: &str,
    rand: &str,
)
    ensures
        final(buf)@ == old(buf)@ + ltk_section_text(
            name@,
            (LtkSectionV {
                key: key@,
                authenticated: authenticated@,
                enc_size: enc_size@,
                e_div: e_div@,
                rand: rand@,
            }),
        ),
{
    emit_header(buf, name);
    emit_field(buf, "Key", key);
    emit_field(buf, "Authenticated", authenticated);
    emit_field(buf, "EncSize", enc_size);
    emit_field(buf, "EDiv", e_div);
    emit_field(buf, "Rand", rand);
    proof {
        assert(buf@ =~= old(buf)@ + ltk_section_text(
            name@,
            (LtkSectionV {
                key: key@,
                authenticated: authenticated@,
                enc_size: enc_size@,
                e_div: e_div@,
                rand: rand@,
            }),
        ));
    }
}

/// Serializes a pairing record back to its sectioned text: exactly
/// `info_text` of the record.
pub fn serialize_info(dev: &BtDevice) -> (r: String)
    ensures
        r@ == info_text(dev@),
{
    let mut buf: Vec<char> = Vec::new();
    if let Some(g) = &dev.general {
        emit_general(&mut buf, g);
    }
    if let Some(d) = &dev.device_id {
        emit_device_id(&mut buf, d);
    }
    if let Some(c) = &dev.connection_parameters {
        emit_connection_parameters(&mut buf, c);
    }
    if let Some(l) = &dev.link_key {
        emit_link_key(&mut buf, l);
    }
    if let Some(k) = &dev.identity_resolving_key {
        emit_single_key(&mut buf, "IdentityResolvingKey", k.key.as_str());
    }
    if let Some(s) = &dev.slave_long_term_key {
        emit_ltk_section(
            &mut buf,
            "SlaveLongTermKey",
            s.key.as_str(),
            s.authenticated.as_str(),
            s.enc_size.as_str(),
            s.e_div.as_str(),
            s.rand.as_str(),
        );
    }
    if let Some(s) = &dev.peripheral_long_term_key {
        emit_ltk_section(
            &mut buf,
            "PeripheralLongTermKey",
            s.key.as_str(),
            s.authenticated.as_str(),
            s.enc_size.as_str(),
            s.e_div.as_str(),
            s.rand.as_str(),
        );
    }
    if let Some(k) = &dev.local_signature_key {
        emit_single_key(&mut buf, "LocalSignatureKey", k.key.as_str());
    }
    if let Some(s) = &dev.long_term_key {
        emit_ltk_section(
            &mut buf,
            "LongTermKey",
            s.key.as_str(),
            s.authenticated.as_str(),
            s.enc_size.as_str(),
            s.e_div.as_str(),
            s.rand.as_str(),
        );
    }
    proof {
        assert(buf@ =~= info_text(dev@));
    }
    chars_to_string(&buf)
}

/// A copy of the given bytes.
fn copy_bytes(v: &Vec<u8>) -> (r: Vec<u8>)
    ensures
        r@ == v@,
{
    let n = v.len();
    let mut out: Vec<u8> = Vec::new();
    let mut i: usize = 0;
    while i < n
        invariant
            0 <= i <= n,
            n == v@.len(),
            out@ == v@.take(i as int),
        decreases n - i,
    {
        out.push(v[i]);
        proof {
            assert(v@.take(i + 1) =~= v@.take(i as int).push(v@[i as int]));
        }
        i = i + 1;
    }
    proof {
        assert(v@.take(n as int) =~= v@);
    }
    out
}

/// The whole per-device update: `None` in means the device has no Linux
/// record, and causes no output; otherwise the existing record text is
/// parsed, the exported credentials are merged in, and the rewritten text
/// comes back. A record that does not parse abandons the device.
pub fn plan_update(existing: Option<&String>, dev: &UniBtDevice) -> (r: Result<
    Option<String>,
    BtError,
>)
    ensures
        existing is None ==> r == Ok::<Option<String>, BtError>(None),
        existing is Some ==> match spec_parse_info(existing->0@) {
            Some(rec) => {
                &&& r is Ok
                &&& r->Ok_0 is Some
                &&& r->Ok_0->0@ == info_text(
                    merged_device(rec, dev@.ltk, dev@.e_rand, dev@.e_div, dev@.irk, dev@.csrk),
                )
            },
            None => r == Err::<Option<String>, BtError>(BtError::MalformedRecord),
        },
{
    let text = match existing {
        Some(t) => t,
        None => {
            return Ok(None);
        },
    };
    let rec = match parse_info(text.as_str()) {
        Ok(rec) => rec,
        Err(e) => {
            return Err(e);
        },
    };
    let mut builder = BtDeviceBuilder::new().device(rec).ltk(Ltk(copy_bytes(&dev.ltk.0)));
    if let Some(x) = &dev.e_rand {
        builder = builder.e_rand(ERand(copy_bytes(&x.0)));
    }
    if let Some(x) = &dev.e_div {
        builder = builder.e_div(EDiv(copy_bytes(&x.0)));
    }
    if let Some(x) = &dev.irk {
        builder = builder.irk(Irk(copy_bytes(&x.0)));
    }
    if let Some(x) = &dev.csrk {
        builder = builder.csrk(Csrk(copy_bytes(&x.0)));
    }
    let merged = builder.build();
    Ok(Some(serialize_info(&merged)))
}

} // verus!
