//! What BlueZ tells about a device.

use crate::address::Address;
use vstd::prelude::*;

verus! {

/// A 128-bit universally unique identifier.
#[derive(Clone, Copy, Debug, PartialEq, Eq, Hash, Structural)]
pub struct Uuid(pub u128);

/// The kind of a device address.
#[derive(Clone, Copy, Debug, PartialEq, Eq, Hash, Structural)]
pub enum AddressType {
    BrEdr,
    LePublic,
    LeRandom,
}

/// Device identification in the modalias format of the kernel.
#[derive(Clone, Debug)]
pub struct Modalias {
    pub source: String,
    pub vendor: u32,
    pub product: u32,
    pub device: u32,
}

/// A property of a Bluetooth device.
#[derive(Clone, Debug)]
pub enum DeviceProperty {
    Name(String),
    RemoteAddress(Address),
    AddressType(AddressType),
    /// The device type, as an icon name proposed by BlueZ.
    Icon(String),
    Class(u32),
    Appearance(u16),
    Uuids(Vec<Uuid>),
    Paired(bool),
    Connected(bool),
    Trusted(bool),
    Blocked(bool),
    WakeAllowed(bool),
    Alias(String),
    LegacyPairing(bool),
    Modalias(Modalias),
    Rssi(i16),
    TxPower(i16),
    ManufacturerData(Vec<(u16, Vec<u8>)>),
    ServiceData(Vec<(Uuid, Vec<u8>)>),
    ServicesResolved(bool),
    AdvertisingFlags(Vec<u8>),
    AdvertisingData(Vec<(u8, Vec<u8>)>),
    BatteryPercentage(u8),
    /// A property that this library does not know.
    Unknown,
}

} // verus!
