use vstd::prelude::*;

verus! {

/// Failure of a device registration in a [`crate::Home`].
///
/// Registration failures are ordinary result values: adding a device to an
/// unknown room reports the room's name, adding a second device under a name
/// already used in a room reports the room and the device name.
#[derive(Debug)]
pub enum DeviceError {
    /// The addressed room is not registered; carries the room name.
    NoRoom(String),
    /// The room already holds a device of this name; carries the room name
    /// and the device name.
    DeviceDuplicated(String, String),
}

/// Failure of a room registration in a [`crate::Home`].
#[derive(Debug)]
pub enum RoomError {
    /// A room of this name is already registered; carries the room name.
    Duplicated(String),
    /// The addressed room is not registered; carries the room name.
    NoRoom(String),
}

} // verus!
