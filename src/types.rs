use vstd::prelude::*;

verus! {

/// First object id of the range that only the server assigns.
pub const SERVER_ID_LIMIT: u32 = 0xFF00_0000;

/// `i` is the lowest free slot of `slots`, or its length when no slot is free.
pub open spec fn is_first_free<T>(slots: Seq<Option<T>>, i: int) -> bool {
    &&& 0 <= i <= slots.len()
    &&& i < slots.len() ==> slots[i] is None
    &&& forall|j: int| 0 <= j < i ==> slots[j] is Some
}

/// Identity of one client connection on the server.
#[derive(Clone, Copy, Debug, PartialEq, Eq, Structural)]
pub struct ClientId {
    pub id: u32,
}

/// A protocol object of one client: its numeric id and the connection it lives in.
#[derive(Clone, Copy, Debug, PartialEq, Eq, Structural)]
pub struct ObjectId {
    pub id: u32,
    pub client_id: ClientId,
}

/// A global: its public protocol name (starting at 1) and an internal serial
/// that tells apart two globals that occupied the same slot.
#[derive(Clone, Copy, Debug, PartialEq, Eq, Structural)]
pub struct GlobalId {
    pub id: u32,
    pub serial: u32,
}

/// A reference to an id that is not (or no longer) what the caller expects.
#[derive(Clone, Copy, Debug, PartialEq, Eq, Structural)]
pub struct InvalidId;

/// A protocol interface: its name, the highest version it supports, and how
/// many requests and events it defines.
#[derive(Clone, Copy, Debug)]
pub struct Interface {
    pub name: &'static [u8],
    pub version: u32,
    pub requests: u16,
    pub events: u16,
}

/// What the registry tells about a global.
#[derive(Clone, Copy, Debug)]
pub struct GlobalInfo {
    pub interface: Interface,
    pub version: u32,
    pub disabled: bool,
}

} // verus!
