//! Error taxonomy for the credential bridge.
//!
//! A malformed or missing field abandons one device; a structural failure of
//! the export text abandons the whole run. Locating and writing record files
//! is the caller's business, so no variant exists for those.

use vstd::prelude::*;

verus! {

/// Why a device record, or the whole export, could not be processed.
#[derive(Clone, Copy, Debug, PartialEq, Eq, Structural)]
pub enum BtError {
    /// One encoded value does not match its fixed-width grammar.
    MalformedField,
    /// A mandatory field (the long-term key, or the device address) is absent.
    MissingField,
    /// The export text does not match the sectioned key=value grammar at all.
    StructuralParse,
    /// An existing pairing record does not match the sectioned grammar,
    /// or a present section lacks one of its required fields.
    MalformedRecord,
}

impl BtError {
    /// A short description, for the caller's diagnostics.
    pub fn message(&self) -> (r: &'static str)
        ensures
            r@ == match *self {
                BtError::MalformedField => "malformed field value"@,
                BtError::MissingField => "missing mandatory field"@,
                BtError::StructuralParse => "export text does not match the registry grammar"@,
                BtError::MalformedRecord => "pairing record does not match the expected grammar"@,
            },
    {
        match *self {
            BtError::MalformedField => "malformed field value",
            BtError::MissingField => "missing mandatory field",
            BtError::StructuralParse => "export text does not match the registry grammar",
            BtError::MalformedRecord => "pairing record does not match the expected grammar",
        }
    }
}

} // verus!
