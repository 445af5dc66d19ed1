//! Reconciles Bluetooth Low Energy pairing credentials between two operating
//! systems that share a machine: key material previously negotiated under
//! Windows is read from a registry export and rewritten into the matching
//! Linux per-device pairing records, so a device paired under one system
//! stays trusted under the other.
//!
//! The crate is a library of pure functions: decoding the registry's textual
//! encodings into fixed-width byte material, parsing the export into
//! per-device records, and merging key material into an existing sectioned
//! key=value pairing record. All file and process handling is left to the
//! caller.

pub mod codec;
pub mod errors;
pub mod info_file;
pub mod info_laws;
pub mod linux_bt_device;
pub mod registry;
pub mod sections;
pub mod text;
pub mod uni_bt_device;
pub mod utils;
pub mod win_bt_device;
