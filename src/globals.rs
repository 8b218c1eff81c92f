use vstd::prelude::*;

verus! {

/// Length tag used throughout the wire format.
pub type DgSize = u16;

/// Length tag of a sized schema type.
pub type DgSizeTag = u16;

/// Message-routing channel.
pub type Channel = u64;

/// Distributed object identifier.
pub type DoId = u32;

/// Zone identifier.
pub type Zone = u32;

/// Distributed class identifier.
pub type DClassId = u16;

/// Global field identifier.
pub type FieldId = u16;

/// Fingerprint of a compiled schema file.
pub type DCFileHash = u32;

/// The largest number of bytes a datagram may hold.
pub const DG_SIZE_MAX: DgSize = 65535;

/// The reserved channel of control messages.
pub const CONTROL_CHANNEL: Channel = 1;

/// Default schema compatibility flag: virtual inheritance.
pub const DC_VIRTUAL_INHERITANCE: bool = true;

/// Default schema compatibility flag: inheritance sorted by declaration order.
pub const DC_SORT_INHERITANCE_BY_FILE: bool = true;

/// Failures of the wire codec.
#[derive(Debug, Clone, Copy, PartialEq, Eq, Structural)]
pub enum DgError {
    DatagramOverflow,
    DatagramIteratorEOF,
    UnknownMessageType,
}

pub type DgResult = Result<(), DgError>;

pub type DgBufferResult = Result<DgSize, DgError>;

} // verus!
