//! What a device is told and what it replies.
//!
//! The same commands serve on the phone itself, from a computer through `adb`, and on the
//! made-up device that needs no phone.

pub mod adb;
pub mod animation;
pub mod command;
pub mod info;
pub mod law;
pub mod local;
pub mod mock;
pub mod mock_law;
pub mod reply;

pub use adb::AdbDevice;
pub use info::target_for_abi;
pub use info::DeviceInfo;
pub use local::LocalDevice;
pub use mock::MockDevice;
pub use reply::parse_resumed_activity;
