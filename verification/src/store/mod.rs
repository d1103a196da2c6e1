//! State of the device.

pub mod app_settings;
pub mod firmware_signature;
pub mod ota;
pub mod transit_data;
