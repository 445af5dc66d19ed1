//! The Linux pairing record: its sectioned data model, the encoders that
//! render canonical bytes in its textual forms, and the merger that replaces
//! exactly the key-material fields while preserving every other field.

use vstd::prelude::*;
use crate::codec::{addr_hex, key_hex, upper_hex_digit};
use crate::text::chars_to_string;
use crate::uni_bt_device::{opt_view, Address, Csrk, EDiv, ERand, Irk, Ltk};

verus! {

/// The uppercase hexadecimal digit of a value below sixteen.
fn upper_hex_char(v: u8) -> (r: char)
    requires
        v < 16,
    ensures
        r == upper_hex_digit(v),
{
    if v < 10 {
        (48 + v) as char
    } else {
        (55 + v) as char
    }
}

/// Key material rendered for a Linux record: two uppercase hexadecimal
/// digits per byte, concatenated.
pub fn bytes_to_linux_hex_key(bytes: &[u8]) -> (r: String)
    ensures
        r@ == key_hex(bytes@),
{
    let n = bytes.len();
    let mut out: Vec<char> = Vec::new();
    let mut i: usize = 0;
    while i < n
        invariant
            0 <= i <= n,
            n == bytes@.len(),
            out@.len() == 2 * i,
            forall|j: int| 0 <= j < out@.len() ==> out@[j] == key_hex(bytes@)[j],
        decreases n - i,
    {
        let b = bytes[i];
        out.push(upper_hex_char(b / 16));
        out.push(upper_hex_char(b % 16));
        i = i + 1;
    }
    proof {
        assert(out@ =~= key_hex(bytes@));
    }
    chars_to_string(&out)
}

/// An address rendered for a Linux record: uppercase hexadecimal bytes
/// joined with ':', in the canonical byte order.
pub fn bytes_to_linux_hex_address(bytes: &[u8]) -> (r: String)
    ensures
        r@ == addr_hex(bytes@),
{
    let n = bytes.len();
    let mut out: Vec<char> = Vec::new();
    let mut i: usize = 0;
    while i < n
        invariant
            0 <= i <= n,
            n == bytes@.len(),
            out@.len() == if i == 0 {
                0int
            } else {
                3 * i - 1
            },
            forall|j: int| 0 <= j < out@.len() ==> out@[j] == addr_hex(bytes@)[j],
        decreases n - i,
    {
        if i > 0 {
            out.push(':');
        }
        let b = bytes[i];
        out.push(upper_hex_char(b / 16));
        out.push(upper_hex_char(b % 16));
        i = i + 1;
    }
    proof {
        assert(out@ =~= addr_hex(bytes@));
    }
    chars_to_string(&out)
}

/// An address in the Linux directory form: uppercase bytes joined with ':'.
pub struct BtAddress(pub String);

impl BtAddress {
    /// The directory name of a canonical address.
    pub fn from_address(a: &Address) -> (r: Self)
        ensures
            r.0@ == addr_hex(a@),
    {
        BtAddress(bytes_to_linux_hex_address(a.0.as_slice()))
    }
}

/// View of the General section.
#[verifier::ext_equal]
pub ghost struct GeneralV {
    pub name: Seq<char>,
    pub appearance: Option<Seq<char>>,
    pub address_type: Seq<char>,
    pub supported_technologies: Seq<char>,
    pub trusted: Seq<char>,
    pub blocked: Seq<char>,
    pub wake_allowed: Option<Seq<char>>,
    pub services: Seq<char>,
}

/// View of the DeviceID section.
#[verifier::ext_equal]
pub ghost struct DeviceIdV {
    pub source: Seq<char>,
    pub vendor: Seq<char>,
    pub product: Seq<char>,
    pub version: Seq<char>,
}

/// View of the ConnectionParameters section.
#[verifier::ext_equal]
pub ghost struct ConnectionParametersV {
    pub min_interval: Seq<char>,
    pub max_interval: Seq<char>,
    pub latency: Seq<char>,
    pub timeout: Seq<char>,
}

/// View of the LinkKey section.
#[verifier::ext_equal]
pub ghost struct LinkKeyV {
    pub key: Seq<char>,
    pub key_type: Seq<char>,
    pub pin_length: Seq<char>,
}

/// View of a single-key section (IdentityResolvingKey, LocalSignatureKey).
#[verifier::ext_equal]
pub ghost struct SingleKeyV {
    pub key: Seq<char>,
}

/// View of a long-term-key section (SlaveLongTermKey, PeripheralLongTermKey,
/// LongTermKey).
#[verifier::ext_equal]
pub ghost struct LtkSectionV {
    pub key: Seq<char>,
    pub authenticated: Seq<char>,
    pub enc_size: Seq<char>,
    pub e_div: Seq<char>,
    pub rand: Seq<char>,
}

/// View of a whole pairing record.
#[verifier::ext_equal]
pub ghost struct BtDeviceV {
    pub general: Option<GeneralV>,
    pub device_id: Option<DeviceIdV>,
    pub connection_parameters: Option<ConnectionParametersV>,
    pub link_key: Option<LinkKeyV>,
    pub identity_resolving_key: Option<SingleKeyV>,
    pub slave_long_term_key: Option<LtkSectionV>,
    pub peripheral_long_term_key: Option<LtkSectionV>,
    pub local_signature_key: Option<SingleKeyV>,
    pub long_term_key: Option<LtkSectionV>,
}

/// The General section of a pairing record; every field is preserved
/// verbatim by the merger.
pub struct General {
    pub name: String,
    pub appearance: Option<String>,
    pub address_type: String,
    pub supported_technologies: String,
    pub trusted: String,
    pub blocked: String,
    pub wake_allowed: Option<String>,
    pub services: String,
}

impl View for General {
    type V = GeneralV;

    open spec fn view(&self) -> GeneralV {
        GeneralV {
            name: self.name@,
            appearance: opt_view(self.appearance),
            address_type: self.address_type@,
            supported_technologies: self.supported_technologies@,
            trusted: self.trusted@,
            blocked: self.blocked@,
            wake_allowed: opt_view(self.wake_allowed),
            services: self.services@,
        }
    }
}

/// The DeviceID section; preserved verbatim by the merger.
pub struct DeviceId {
    pub source: String,
    pub vendor: String,
    pub product: String,
    pub version: String,
}

impl View for DeviceId {
    type V = DeviceIdV;

    open spec fn view(&self) -> DeviceIdV {
        DeviceIdV {
            source: self.source@,
            vendor: self.vendor@,
            product: self.product@,
            version: self.version@,
        }
    }
}

/// The ConnectionParameters section; preserved verbatim by the merger.
pub struct ConnectionParameters {
    pub min_interval: String,
    pub max_interval: String,
    pub latency: String,
    pub timeout: String,
}

impl View for ConnectionParameters {
    type V = ConnectionParametersV;

    open spec fn view(&self) -> ConnectionParametersV {
        ConnectionParametersV {
            min_interval: self.min_interval@,
            max_interval: self.max_interval@,
            latency: self.latency@,
            timeout: self.timeout@,
        }
    }
}

/// The LinkKey section: its key is replaced by the merger, the type and PIN
/// length are preserved.
pub struct LinkKey {
    pub key: String,
    pub key_type: String,
    pub pin_length: String,
}

impl View for LinkKey {
    type V = LinkKeyV;

    open spec fn view(&self) -> LinkKeyV {
        LinkKeyV { key: self.key@, key_type: self.key_type@, pin_length: self.pin_length@ }
    }
}

/// The LinkKey section with the key replaced by new long-term key material.
pub open spec fn merged_link_key(old: LinkKeyV, ltk: Seq<u8>) -> LinkKeyV {
    LinkKeyV { key: key_hex(ltk), ..old }
}

impl LinkKey {
    /// The same section carrying the new long-term key.
    pub fn recreate(&self, ltk: &Ltk) -> (r: Self)
        ensures
            r@ == merged_link_key(self@, ltk@),
    {
        LinkKey {
            key: bytes_to_linux_hex_key(ltk.0.as_slice()),
            key_type: self.key_type.clone(),
            pin_length: self.pin_length.clone(),
        }
    }
}

/// The IdentityResolvingKey section: only the key.
pub struct IdentityResolvingKey {
    pub key: String,
}

impl View for IdentityResolvingKey {
    type V = SingleKeyV;

    open spec fn view(&self) -> SingleKeyV {
        SingleKeyV { key: self.key@ }
    }
}

impl IdentityResolvingKey {
    /// The section carrying the new identity resolving key.
    pub fn recreate(&self, irk: &Irk) -> (r: Self)
        ensures
            r@.key == key_hex(irk@),
    {
        IdentityResolvingKey { key: bytes_to_linux_hex_key(irk.0.as_slice()) }
    }
}

/// A long-term-key section with only its key replaced; the authentication
/// level, encryption size, diversifier and random value are preserved.
pub open spec fn merged_ltk_key(old: LtkSectionV, ltk: Seq<u8>) -> LtkSectionV {
    LtkSectionV { key: key_hex(ltk), ..old }
}

/// The LongTermKey section with key, diversifier and random value replaced;
/// the authentication level and encryption size are preserved.
pub open spec fn merged_long_term_key(
    old: LtkSectionV,
    ltk: Seq<u8>,
    e_div: Seq<u8>,
    e_rand: Seq<u8>,
) -> LtkSectionV {
    LtkSectionV { key: key_hex(ltk), e_div: key_hex(e_div), rand: key_hex(e_rand), ..old }
}

/// The SlaveLongTermKey section.
pub struct SlaveLongTermKey {
    pub key: String,
    pub authenticated: String,
    pub enc_size: String,
    pub e_div: String,
    pub rand: String,
}

impl View for SlaveLongTermKey {
    type V = LtkSectionV;

    open spec fn view(&self) -> LtkSectionV {
        LtkSectionV {
            key: self.key@,
            authenticated: self.authenticated@,
            enc_size: self.enc_size@,
            e_div: self.e_div@,
            rand: self.rand@,
        }
    }
}

impl SlaveLongTermKey {
    /// The same section carrying the new long-term key.
    pub fn recreate(&self, ltk: &Ltk) -> (r: Self)
        ensures
            r@ == merged_ltk_key(self@, ltk@),
    {
        SlaveLongTermKey {
            key: bytes_to_linux_hex_key(ltk.0.as_slice()),
            authenticated: self.authenticated.clone(),
            enc_size: self.enc_size.clone(),
            e_div: self.e_div.clone(),
            rand: self.rand.clone(),
        }
    }
}

/// The PeripheralLongTermKey section.
pub struct PeripheralLongTermKey {
    pub key: String,
    pub authenticated: String,
    pub enc_size: String,
    pub e_div: String,
    pub rand: String,
}

impl View for PeripheralLongTermKey {
    type V = LtkSectionV;

    open spec fn view(&self) -> LtkSectionV {
        LtkSectionV {
            key: self.key@,
            authenticated: self.authenticated@,
            enc_size: self.enc_size@,
            e_div: self.e_div@,
            rand: self.rand@,
        }
    }
}

impl PeripheralLongTermKey {
    /// The same section carrying the new long-term key.
    pub fn recreate(&self, ltk: &Ltk) -> (r: Self)
        ensures
            r@ == merged_ltk_key(self@, ltk@),
    {
        PeripheralLongTermKey {
            key: bytes_to_linux_hex_key(ltk.0.as_slice()),
            authenticated: self.authenticated.clone(),
            enc_size: self.enc_size.clone(),
            e_div: self.e_div.clone(),
            rand: self.rand.clone(),
        }
    }
}

/// The LocalSignatureKey section: only the key.
pub struct LocalSignatureKey {
    pub key: String,
}

impl View for LocalSignatureKey {
    type V = SingleKeyV;

    open spec fn view(&self) -> SingleKeyV {
        SingleKeyV { key: self.key@ }
    }
}

impl LocalSignatureKey {
    /// The section carrying the new connection signature resolving key.
    pub fn recreate(&self, csrk: &Csrk) -> (r: Self)
        ensures
            r@.key == key_hex(csrk@),
    {
        LocalSignatureKey { key: bytes_to_linux_hex_key(csrk.0.as_slice()) }
    }
}

/// The LongTermKey section.
pub struct LongTermKey {
    pub key: String,
    pub authenticated: String,
    pub enc_size: String,
    pub e_div: String,
    pub rand: String,
}

impl View for LongTermKey {
    type V = LtkSectionV;

    open spec fn view(&self) -> LtkSectionV {
        LtkSectionV {
            key: self.key@,
            authenticated: self.authenticated@,
            enc_size: self.enc_size@,
            e_div: self.e_div@,
            rand: self.rand@,
        }
    }
}

impl LongTermKey {
    /// The same section carrying the new key, diversifier and random value;
    /// the authentication level and encryption size stay untouched.
    pub fn recreate(&self, ltk: &Ltk, e_rand: &ERand, e_div: &EDiv) -> (r: Self)
        ensures
            r@ == merged_long_term_key(self@, ltk@, e_div@, e_rand@),
    {
        LongTermKey {
            key: bytes_to_linux_hex_key(ltk.0.as_slice()),
            authenticated: self.authenticated.clone(),
            enc_size: self.enc_size.clone(),
            e_div: bytes_to_linux_hex_key(e_div.0.as_slice()),
            rand: bytes_to_linux_hex_key(e_rand.0.as_slice()),
        }
    }
}

/// A whole pairing record: each section is present exactly where the file
/// on disk has it.
pub struct BtDevice {
    pub general: Option<General>,
    pub device_id: Option<DeviceId>,
    pub connection_parameters: Option<ConnectionParameters>,
    pub link_key: Option<LinkKey>,
    pub identity_resolving_key: Option<IdentityResolvingKey>,
    pub slave_long_term_key: Option<SlaveLongTermKey>,
    pub peripheral_long_term_key: Option<PeripheralLongTermKey>,
    pub local_signature_key: Option<LocalSignatureKey>,
    pub long_term_key: Option<LongTermKey>,
}

impl View for BtDevice {
    type V = BtDeviceV;

    open spec fn view(&self) -> BtDeviceV {
        BtDeviceV {
            general: opt_view(self.general),
            device_id: opt_view(self.device_id),
            connection_parameters: opt_view(self.connection_parameters),
            link_key: opt_view(self.link_key),
            identity_resolving_key: opt_view(self.identity_resolving_key),
            slave_long_term_key: opt_view(self.slave_long_term_key),
            peripheral_long_term_key: opt_view(self.peripheral_long_term_key),
            local_signature_key: opt_view(self.local_signature_key),
            long_term_key: opt_view(self.long_term_key),
        }
    }
}

/// The record after the merge. Only key material changes: the LinkKey,
/// SlaveLongTermKey and PeripheralLongTermKey keys always take the new
/// long-term key; the IdentityResolvingKey and LocalSignatureKey keys change
/// only when the matching credential was exported; the LongTermKey section
/// changes only when both the diversifier and the random value were
/// exported. A section absent from the record stays absent, and no other
/// field of any section is touched.
pub open spec fn merged_device(
    d: BtDeviceV,
    ltk: Seq<u8>,
    e_rand: Option<Seq<u8>>,
    e_div: Option<Seq<u8>>,
    irk: Option<Seq<u8>>,
    csrk: Option<Seq<u8>>,
) -> BtDeviceV {
    BtDeviceV {
        link_key: match d.link_key {
            Some(lk) => Some(merged_link_key(lk, ltk)),
            None => None,
        },
        identity_resolving_key: match (d.identity_resolving_key, irk) {
            (Some(_), Some(k)) => Some(SingleKeyV { key: key_hex(k) }),
            _ => d.identity_resolving_key,
        },
        slave_long_term_key: match d.slave_long_term_key {
            Some(s) => Some(merged_ltk_key(s, ltk)),
            None => None,
        },
        peripheral_long_term_key: match d.peripheral_long_term_key {
            Some(s) => Some(merged_ltk_key(s, ltk)),
            None => None,
        },
        local_signature_key: match (d.local_signature_key, csrk) {
            (Some(_), Some(k)) => Some(SingleKeyV { key: key_hex(k) }),
            _ => d.local_signature_key,
        },
        long_term_key: match (d.long_term_key, e_rand, e_div) {
            (Some(o), Some(r), Some(dv)) => Some(merged_long_term_key(o, ltk, dv, r)),
            _ => d.long_term_key,
        },
        ..d
    }
}

/// The merge touches key material only. Sections that never carry key
/// material keep their exact value, no absent section appears and no present
/// one vanishes, and inside every rewritten section the auxiliary fields —
/// the link key's type and PIN length, each long-term-key section's
/// authentication level and encryption size, and the LongTermKey section's
/// diversifier and random value when no replacement was exported — stay
/// byte-identical to the record as found.
pub proof fn lemma_merge_changes_only_key_material(
    d: BtDeviceV,
    ltk: Seq<u8>,
    e_rand: Option<Seq<u8>>,
    e_div: Option<Seq<u8>>,
    irk: Option<Seq<u8>>,
    csrk: Option<Seq<u8>>,
)
    ensures
        ({
            let m = merged_device(d, ltk, e_rand, e_div, irk, csrk);
            &&& m.general == d.general
            &&& m.device_id == d.device_id
            &&& m.connection_parameters == d.connection_parameters
            &&& (m.link_key is Some <==> d.link_key is Some)
            &&& (d.link_key is Some ==> m.link_key->0.key_type == d.link_key->0.key_type
                && m.link_key->0.pin_length == d.link_key->0.pin_length)
            &&& (m.identity_resolving_key is Some <==> d.identity_resolving_key is Some)
            &&& (m.slave_long_term_key is Some <==> d.slave_long_term_key is Some)
            &&& (d.slave_long_term_key is Some ==> m.slave_long_term_key->0.authenticated
                == d.slave_long_term_key->0.authenticated && m.slave_long_term_key->0.enc_size
                == d.slave_long_term_key->0.enc_size && m.slave_long_term_key->0.e_div
                == d.slave_long_term_key->0.e_div && m.slave_long_term_key->0.rand
                == d.slave_long_term_key->0.rand)
            &&& (m.peripheral_long_term_key is Some <==> d.peripheral_long_term_key is Some)
            &&& (d.peripheral_long_term_key is Some ==> m.peripheral_long_term_key->0.authenticated
                == d.peripheral_long_term_key->0.authenticated
                && m.peripheral_long_term_key->0.enc_size == d.peripheral_long_term_key->0.enc_size
                && m.peripheral_long_term_key->0.e_div == d.peripheral_long_term_key->0.e_div
                && m.peripheral_long_term_key->0.rand == d.peripheral_long_term_key->0.rand)
            &&& (m.local_signature_key is Some <==> d.local_signature_key is Some)
            &&& (m.long_term_key is Some <==> d.long_term_key is Some)
            &&& (d.long_term_key is Some ==> m.long_term_key->0.authenticated
                == d.long_term_key->0.authenticated && m.long_term_key->0.enc_size
                == d.long_term_key->0.enc_size)
            &&& (d.long_term_key is Some && !(e_rand is Some && e_div is Some)
                ==> m.long_term_key == d.long_term_key)
        }),
{
}

/// Merging is idempotent at the record level: applying the same credentials
/// to an already-merged record changes nothing, because every replaced field
/// depends only on the credentials and every other field is preserved.
pub proof fn lemma_merge_idempotent(
    d: BtDeviceV,
    ltk: Seq<u8>,
    e_rand: Option<Seq<u8>>,
    e_div: Option<Seq<u8>>,
    irk: Option<Seq<u8>>,
    csrk: Option<Seq<u8>>,
)
    ensures
        merged_device(merged_device(d, ltk, e_rand, e_div, irk, csrk), ltk, e_rand, e_div, irk, csrk)
            == merged_device(d, ltk, e_rand, e_div, irk, csrk),
{
    let once = merged_device(d, ltk, e_rand, e_div, irk, csrk);
    let twice = merged_device(once, ltk, e_rand, e_div, irk, csrk);
    assert(twice =~~= once);
}

/// Assembles the merged pairing record from an existing record and the
/// credentials exported for the same device.
pub struct BtDeviceBuilder {
    pub device: Option<BtDevice>,
    pub ltk: Option<Ltk>,
    pub e_rand: Option<ERand>,
    pub e_div: Option<EDiv>,
    pub irk: Option<Irk>,
    pub csrk: Option<Csrk>,
}

impl BtDeviceBuilder {
    /// An empty builder: no record and no credentials yet.
    pub fn new() -> (r: Self)
        ensures
            r.device is None,
            r.ltk is None,
            r.e_rand is None,
            r.e_div is None,
            r.irk is None,
            r.csrk is None,
    {
        BtDeviceBuilder {
            device: None,
            ltk: None,
            e_rand: None,
            e_div: None,
            irk: None,
            csrk: None,
        }
    }

    /// The existing record to merge into.
    pub fn device(self, device: BtDevice) -> (r: Self)
        ensures
            r == (BtDeviceBuilder { device: Some(device), ..self }),
    {
        BtDeviceBuilder { device: Some(device), ..self }
    }

    /// The new long-term key.
    pub fn ltk(self, ltk: Ltk) -> (r: Self)
        ensures
            r == (BtDeviceBuilder { ltk: Some(ltk), ..self }),
    {
        BtDeviceBuilder { ltk: Some(ltk), ..self }
    }

    /// The new encrypted random value.
    pub fn e_rand(self, e_rand: ERand) -> (r: Self)
        ensures
            r == (BtDeviceBuilder { e_rand: Some(e_rand), ..self }),
    {
        BtDeviceBuilder { e_rand: Some(e_rand), ..self }
    }

    /// The new encrypted diversifier.
    pub fn e_div(self, e_div: EDiv) -> (r: Self)
        ensures
            r == (BtDeviceBuilder { e_div: Some(e_div), ..self }),
    {
        BtDeviceBuilder { e_div: Some(e_div), ..self }
    }

    /// The new identity resolving key.
    pub fn irk(self, irk: Irk) -> (r: Self)
        ensures
            r == (BtDeviceBuilder { irk: Some(irk), ..self }),
    {
        BtDeviceBuilder { irk: Some(irk), ..self }
    }

    /// The new connection signature resolving key.
    pub fn csrk(self, csrk: Csrk) -> (r: Self)
        ensures
            r == (BtDeviceBuilder { csrk: Some(csrk), ..self }),
    {
        BtDeviceBuilder { csrk: Some(csrk), ..self }
    }

    /// The merged record: exactly `merged_device` of the existing record and
    /// the credentials given to the builder.
    pub fn build(self) -> (r: BtDevice)
        requires
            self.device is Some,
            self.ltk is Some,
        ensures
            r@ == merged_device(
                self.device->0@,
                self.ltk->0@,
                opt_view(self.e_rand),
                opt_view(self.e_div),
                opt_view(self.irk),
                opt_view(self.csrk),
            ),
    {
        let ghost g = merged_device(
            self.device->0@,
            self.ltk->0@,
            opt_view(self.e_rand),
            opt_view(self.e_div),
            opt_view(self.irk),
            opt_view(self.csrk),
        );
        let BtDeviceBuilder { device, ltk, e_rand, e_div, irk, csrk } = self;
        let mut device = device.unwrap();
        let ltk = ltk.unwrap();

        let new_link_key = match &device.link_key {
            Some(lk) => Some(lk.recreate(&ltk)),
            None => None,
        };
        device.link_key = new_link_key;

        if device.identity_resolving_key.is_some() {
            if let Some(k) = &irk {
                let prev = device.identity_resolving_key.as_ref().unwrap();
                device.identity_resolving_key = Some(prev.recreate(k));
            }
        }

        let new_slave = match &device.slave_long_term_key {
            Some(s) => Some(s.recreate(&ltk)),
            None => None,
        };
        device.slave_long_term_key = new_slave;

        let new_peripheral = match &device.peripheral_long_term_key {
            Some(s) => Some(s.recreate(&ltk)),
            None => None,
        };
        device.peripheral_long_term_key = new_peripheral;

        if device.local_signature_key.is_some() {
            if let Some(k) = &csrk {
                let prev = device.local_signature_key.as_ref().unwrap();
                device.local_signature_key = Some(prev.recreate(k));
            }
        }

        if device.long_term_key.is_some() {
            if let Some(r) = &e_rand {
                if let Some(dv) = &e_div {
                    let prev = device.long_term_key.as_ref().unwrap();
                    device.long_term_key = Some(prev.recreate(&ltk, r, dv));
                }
            }
        }

        proof {
            assert(device@ =~~= g);
        }
        device
    }
}

} // verus!
