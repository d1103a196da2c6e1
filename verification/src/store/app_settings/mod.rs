//! Application settings.
//!
//! Persisted settings are stored in flash and survive reboots. Session settings are held in memory
//! and reset on reboot. Device info is stored in a flash partition of its own.

pub mod info;
pub mod persist;
pub mod session;
