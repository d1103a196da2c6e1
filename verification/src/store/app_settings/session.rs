//! Volatile session settings, reset on reboot.

use vstd::prelude::*;

use crate::proto::DeviceUpdate;

verus! {

#[derive(Debug)]
pub struct SessionSettings {
    pub light_on: bool,
    /// If set, overrides the timer to force the light on or off.
    pub light_on_override: Option<bool>,
    /// Whether the day-night timer is currently driving the light off.
    pub night_timer_active: bool,
    /// Whether the device has synced its time with the server.
    pub is_time_synced: bool,
    /// Unix time minus uptime in seconds.
    pub unix_epoch_offset_secs: u32,
    /// Seconds since the last local midnight at sync, minus uptime in seconds.
    pub local_time_of_day_offset_secs: u32,
    /// Local weekday number at sync, 0 is Sunday.
    pub local_weekday_number: u32,
    /// Sunrise in seconds since local midnight.
    pub local_sunrise_time_of_day_seconds: u32,
    /// Sunset in seconds since local midnight.
    pub local_sunset_time_of_day_seconds: u32,
    pub updating_firmware: bool,
    pub update_progress_percent: u8,
    pub update_speed_bytes_per_sec: u32,
    pub update_has_failed: bool,
    pub test_mode_active: bool,
    pub is_rolled_back_firmware: bool,
    pub is_factory_firmware: bool,
    pub firmware_update_available: Option<DeviceUpdate>,
    /// Brightness that follows the path of the sun, if that is enabled.
    pub auto_brightness_percent: Option<u8>,
    /// When the update that was scheduled will start, if one was.
    pub auto_update_scheduled_unix_timestamp: Option<u32>,
}

/// The settings at boot.
pub open spec fn spec_session_settings_default() -> SessionSettings {
    SessionSettings {
        light_on: true,
        light_on_override: None,
        night_timer_active: false,
        is_time_synced: false,
        unix_epoch_offset_secs: 0,
        local_time_of_day_offset_secs: 0,
        local_weekday_number: 0,
        local_sunrise_time_of_day_seconds: 0,
        local_sunset_time_of_day_seconds: 0,
        updating_firmware: false,
        update_progress_percent: 0,
        update_speed_bytes_per_sec: 0,
        update_has_failed: false,
        test_mode_active: false,
        is_rolled_back_firmware: false,
        is_factory_firmware: false,
        firmware_update_available: None,
        auto_brightness_percent: None,
        auto_update_scheduled_unix_timestamp: None,
    }
}

impl Default for SessionSettings {
    fn default() -> (s: Self)
        ensures
            s == spec_session_settings_default(),
    {
        SessionSettings {
            light_on: true,
            light_on_override: None,
            night_timer_active: false,
            is_time_synced: false,
            unix_epoch_offset_secs: 0,
            local_time_of_day_offset_secs: 0,
            local_weekday_number: 0,
            local_sunrise_time_of_day_seconds: 0,
            local_sunset_time_of_day_seconds: 0,
            updating_firmware: false,
            update_progress_percent: 0,
            update_speed_bytes_per_sec: 0,
            update_has_failed: false,
            test_mode_active: false,
            is_rolled_back_firmware: false,
            is_factory_firmware: false,
            firmware_update_available: None,
            auto_brightness_percent: None,
            auto_update_scheduled_unix_timestamp: None,
        }
    }
}

} // verus!
