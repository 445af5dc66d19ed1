//! The canonical device record: the unified representation of one paired
//! device's credentials, produced from the registry export and consumed by
//! the Linux record merger. Every byte field has a fixed width; a decode
//! that cannot produce exactly that width never constructs a value.

use vstd::prelude::*;

verus! {

/// The views of the optional fields of a record, where present.
pub open spec fn opt_view<T: View>(o: Option<T>) -> Option<T::V> {
    match o {
        Some(x) => Some(x@),
        None => None,
    }
}

/// A Bluetooth device address: six bytes in wire order.
pub struct Address(pub Vec<u8>);

impl Address {
    /// The fixed width of an address.
    pub open spec fn wf(&self) -> bool {
        self.0@.len() == 6
    }
}

impl View for Address {
    type V = Seq<u8>;

    open spec fn view(&self) -> Seq<u8> {
        self.0@
    }
}

/// A long-term key: sixteen bytes.
pub struct Ltk(pub Vec<u8>);

impl View for Ltk {
    type V = Seq<u8>;

    open spec fn view(&self) -> Seq<u8> {
        self.0@
    }
}

impl Ltk {
    /// The fixed width of a long-term key.
    pub open spec fn wf(&self) -> bool {
        self.0@.len() == 16
    }
}

/// An encrypted random value: eight bytes.
pub struct ERand(pub Vec<u8>);

impl View for ERand {
    type V = Seq<u8>;

    open spec fn view(&self) -> Seq<u8> {
        self.0@
    }
}

impl ERand {
    /// The fixed width of an encrypted random value.
    pub open spec fn wf(&self) -> bool {
        self.0@.len() == 8
    }
}

/// An encrypted diversifier: four bytes.
pub struct EDiv(pub Vec<u8>);

impl View for EDiv {
    type V = Seq<u8>;

    open spec fn view(&self) -> Seq<u8> {
        self.0@
    }
}

impl EDiv {
    /// The fixed width of an encrypted diversifier.
    pub open spec fn wf(&self) -> bool {
        self.0@.len() == 4
    }
}

/// An identity resolving key: sixteen bytes.
pub struct Irk(pub Vec<u8>);

impl View for Irk {
    type V = Seq<u8>;

    open spec fn view(&self) -> Seq<u8> {
        self.0@
    }
}

impl Irk {
    /// The fixed width of an identity resolving key.
    pub open spec fn wf(&self) -> bool {
        self.0@.len() == 16
    }
}

/// A connection signature resolving key: sixteen bytes.
pub struct Csrk(pub Vec<u8>);

impl View for Csrk {
    type V = Seq<u8>;

    open spec fn view(&self) -> Seq<u8> {
        self.0@
    }
}

impl Csrk {
    /// The fixed width of a connection signature resolving key.
    pub open spec fn wf(&self) -> bool {
        self.0@.len() == 16
    }
}

/// View of one device's credentials: each field as its bytes.
#[verifier::ext_equal]
pub ghost struct UniBtDeviceV {
    pub address: Seq<u8>,
    pub parent_address: Seq<u8>,
    pub ltk: Seq<u8>,
    pub e_rand: Option<Seq<u8>>,
    pub e_div: Option<Seq<u8>>,
    pub irk: Option<Seq<u8>>,
    pub csrk: Option<Seq<u8>>,
}

/// One device's credentials. The addresses and the long-term key are always
/// present; the remaining keys exist only where the device negotiated them.
pub struct UniBtDevice {
    /// The device's own address.
    pub address: Address,
    /// The address of the local adapter that paired the device.
    pub parent_address: Address,
    /// The long-term key; its absence abandons the device.
    pub ltk: Ltk,
    /// The encrypted random value, if negotiated.
    pub e_rand: Option<ERand>,
    /// The encrypted diversifier, if negotiated.
    pub e_div: Option<EDiv>,
    /// The identity resolving key, if negotiated.
    pub irk: Option<Irk>,
    /// The connection signature resolving key, if negotiated.
    pub csrk: Option<Csrk>,
}

impl View for UniBtDevice {
    type V = UniBtDeviceV;

    open spec fn view(&self) -> UniBtDeviceV {
        UniBtDeviceV {
            address: self.address@,
            parent_address: self.parent_address@,
            ltk: self.ltk@,
            e_rand: opt_view(self.e_rand),
            e_div: opt_view(self.e_div),
            irk: opt_view(self.irk),
            csrk: opt_view(self.csrk),
        }
    }
}

impl UniBtDevice {
    /// Every field has its fixed width.
    pub open spec fn wf(&self) -> bool {
        &&& self.address.wf()
        &&& self.parent_address.wf()
        &&& self.ltk.wf()
        &&& (self.e_rand is Some ==> self.e_rand->0.wf())
        &&& (self.e_div is Some ==> self.e_div->0.wf())
        &&& (self.irk is Some ==> self.irk->0.wf())
        &&& (self.csrk is Some ==> self.csrk->0.wf())
    }
}

} // verus!
