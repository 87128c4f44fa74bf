//! A household device registry with a verified report generator.
//!
//! A [`Home`] owns a two-level name hierarchy: room names map to rooms, and
//! inside each room device names map to opaque [`DeviceId`] values. A
//! [`Provider`] hands out integer handles for the device instances of one
//! category, and a [`DeviceInfoProvider`] resolves a [`DeviceId`] to a live
//! status string across all categories. The report generator renders, for an
//! ordered list of (room, device) queries, one deterministic text block per
//! query, including the case where the home still lists an identifier that no
//! registry can resolve.

pub mod assoc;
pub mod builder;
pub mod device_info_provider;
pub mod error;
pub mod home;
pub mod provider;
pub mod text;

pub use device_info_provider::DeviceId;
pub use device_info_provider::DeviceInfoProvider;
pub use device_info_provider::StatusProvider;
pub use error::DeviceError;
pub use error::RoomError;
pub use home::Home;
pub use home::ReportParam;
pub use provider::Provider;
