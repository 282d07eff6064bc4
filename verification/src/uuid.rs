//! Attribute type identifiers.

use vstd::prelude::*;

verus! {

/// A 16-bit UUID alias assigned by the Bluetooth SIG.
#[derive(Clone, Copy, Debug, PartialEq, Eq, Structural)]
pub struct Uuid16(pub u16);

/// A full 128-bit UUID, kept as its 16 bytes in the order they were given.
#[derive(Clone, Copy, Debug, PartialEq, Eq)]
pub struct Uuid {
    bytes: [u8; 16],
}

impl View for Uuid {
    type V = Seq<u8>;

    closed spec fn view(&self) -> Seq<u8> {
        self.bytes@
    }
}

impl Uuid {
    /// Builds a UUID from its 16 bytes.
    pub fn from_bytes(bytes: [u8; 16]) -> (uuid: Self)
        ensures
            uuid@ == bytes@,
            uuid@.len() == 16,
    {
        Uuid { bytes }
    }

    /// The 16 bytes of the UUID.
    pub fn as_bytes(&self) -> (bytes: &[u8; 16])
        ensures
            bytes@ == self@,
    {
        &self.bytes
    }
}

/// The mathematical value of an attribute type.
pub enum AttUuidView {
    Uuid16(u16),
    Uuid128(Seq<u8>),
}

/// The type of an attribute: a 16-bit alias or a full UUID.
#[derive(Clone, Copy, Debug, PartialEq, Eq)]
pub enum AttUuid {
    Uuid16(Uuid16),
    Uuid128(Uuid),
}

impl View for AttUuid {
    type V = AttUuidView;

    open spec fn view(&self) -> AttUuidView {
        match *self {
            AttUuid::Uuid16(u) => AttUuidView::Uuid16(u.0),
            AttUuid::Uuid128(u) => AttUuidView::Uuid128(u@),
        }
    }
}

/// The 16-bit alias of the "Primary Service" declaration.
pub const PRIMARY_SERVICE: u16 = 0x2800;

/// The 16-bit alias of the "Characteristic" declaration.
pub const CHARACTERISTIC: u16 = 0x2803;

/// The 16-bit alias of the "Client Characteristic Configuration" descriptor.
pub const CLIENT_CHARACTERISTIC_CONFIGURATION: u16 = 0x2902;

/// The 16-bit alias of the "Battery Level" characteristic.
pub const BATTERY_LEVEL: u16 = 0x2A19;

impl AttUuid {
    /// Whether this type is the given 16-bit alias, written in its short form.
    pub fn is_alias(&self, alias: u16) -> (r: bool)
        ensures
            r == (self@ == AttUuidView::Uuid16(alias)),
    {
        match self {
            AttUuid::Uuid16(u) => u.0 == alias,
            AttUuid::Uuid128(_) => false,
        }
    }
}

} // verus!
