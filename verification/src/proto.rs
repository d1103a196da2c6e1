//! The messages that the device and the server exchange.

use vstd::prelude::*;

verus! {

/// Version of the protocol that this device speaks.
pub const VERSION: u32 = 1;

/// What a message is about.
#[derive(Debug)]
pub enum Payload {
    ServerInfo(ServerInfo),
    Status(DeviceStatus),
    Config(DeviceConfig),
    Command(DeviceCommand),
    Echo(Echo),
    TransitData(TransitData),
    DeviceUpdate(DeviceUpdate),
    Telemetry(DeviceTelemetry),
    Errors(DeviceErrors),
    DeviceInfo(DeviceInfo),
}

#[derive(Debug)]
pub struct ClientMessage {
    pub version: u32,
    pub payload: Option<Payload>,
}

/// World time as the server has it.
#[derive(Debug, Copy, Clone)]
pub struct ServerInfo {
    pub unix_timestamp: u32,
    pub local_time_of_day_seconds: u32,
    /// 0 is Sunday.
    pub local_weekday_number: u32,
    pub local_sunrise_time_of_day_seconds: u32,
    pub local_sunset_time_of_day_seconds: u32,
}

#[derive(Debug)]
pub struct DeviceStatus {
    pub is_light_on: bool,
    pub is_updating_firmware: bool,
    pub has_update_failed: bool,
    pub wifi_ssid: String,
}

#[derive(Debug, Copy, Clone, PartialEq, Eq, Structural)]
pub enum DeviceCommand {
    Reboot,
    Identify,
    FactoryReset,
    Reprovision,
    ResetConfigDefaults,
    StartFirmwareUpdate,
    TestLeds,
    Reconnect,
    /// A number that the protocol does not define.
    Unknown(i32),
}

/// A message that is sent back as it came.
#[derive(Debug)]
pub struct Echo {
    pub data: Vec<u8>,
}

/// A firmware image that the server offers.
#[derive(Debug)]
pub struct DeviceUpdate {
    pub firmware_version_major: u32,
    pub firmware_version_minor: u32,
    pub firmware_version_patch: u32,
    pub image_url: String,
    pub size_bytes: u32,
    pub sha256_hash: Vec<u8>,
    pub p256_signature: Vec<u8>,
}

impl DeviceUpdate {
    /// Whether two offers say the same.
    pub open spec fn same(self, other: Self) -> bool {
        &&& self.firmware_version_major == other.firmware_version_major
        &&& self.firmware_version_minor == other.firmware_version_minor
        &&& self.firmware_version_patch == other.firmware_version_patch
        &&& self.image_url@ == other.image_url@
        &&& self.size_bytes == other.size_bytes
        &&& self.sha256_hash@ == other.sha256_hash@
        &&& self.p256_signature@ == other.p256_signature@
    }

    /// A second copy of the offer.
    pub fn duplicate(&self) -> (r: Self)
        ensures
            r.same(*self),
    {
        DeviceUpdate {
            firmware_version_major: self.firmware_version_major,
            firmware_version_minor: self.firmware_version_minor,
            firmware_version_patch: self.firmware_version_patch,
            image_url: self.image_url.clone(),
            size_bytes: self.size_bytes,
            sha256_hash: duplicate_bytes(&self.sha256_hash),
            p256_signature: duplicate_bytes(&self.p256_signature),
        }
    }
}

/// A second copy of `bytes`.
pub fn duplicate_bytes(bytes: &[u8]) -> (r: Vec<u8>)
    ensures
        r@ == bytes@,
{
    let mut r: Vec<u8> = Vec::new();
    let mut i: usize = 0;
    while i < bytes.len()
        invariant
            i <= bytes@.len(),
            r@ == bytes@.take(i as int),
        decreases bytes@.len() - i,
    {
        r.push(bytes[i]);
        i = i + 1;
        assert(bytes@.take(i as int) =~= bytes@.take(i - 1).push(bytes@[i - 1]));
    }
    assert(bytes@.take(i as int) =~= bytes@);
    r
}

#[derive(Debug, Copy, Clone, PartialEq, Eq, Structural)]
pub enum ColorMode {
    Original,
    Monochrome,
    RangeSpacedApart,
    DelayHeatmap,
    SpeedHeatmap,
    /// A number that the protocol does not define.
    Unknown(i32),
}

#[derive(Debug, Copy, Clone, PartialEq, Eq, Structural)]
pub enum DisruptionMode {
    Off,
    Solid,
    Pulsing,
    Ripple,
    /// A number that the protocol does not define.
    Unknown(i32),
}

#[derive(Debug, Copy, Clone, PartialEq, Eq, Structural)]
pub enum DisruptionInterval {
    Every2s,
    Every3s,
    Every5s,
    Every10s,
    /// A number that the protocol does not define.
    Unknown(i32),
}

#[derive(Debug, Copy, Clone, PartialEq, Eq, Structural)]
pub enum DisruptionFilter {
    All,
    Severe,
    /// A number that the protocol does not define.
    Unknown(i32),
}

#[derive(Debug, Copy, Clone, PartialEq, Eq, Structural)]
pub enum RenderMode {
    SnapClosest,
    SnapClosestTransition,
    /// A number that the protocol does not define.
    Unknown(i32),
}

#[derive(Debug, Copy, Clone, PartialEq, Eq, Structural)]
pub enum VehicleFilter {
    All,
    StationaryOnly,
    WithinDistance,
    /// A number that the protocol does not define.
    Unknown(i32),
}

#[derive(Debug, Copy, Clone, PartialEq, Eq, Structural)]
pub enum RealtimeFilter {
    ScheduledAndRealtime,
    RealtimeOnly,
    /// A number that the protocol does not define.
    Unknown(i32),
}

#[derive(Debug, Copy, Clone, PartialEq, Eq, Structural)]
pub struct TimerSettings {
    pub enabled: bool,
    pub start_time_of_day_seconds: u32,
    pub end_time_of_day_seconds: u32,
    /// One bit per weekday, Sunday first.
    pub weekdays_bitmask: u32,
}

#[derive(Debug, Copy, Clone, PartialEq, Eq, Structural)]
pub struct SunlightAutoBrightness {
    pub enabled: bool,
    pub night_brightness_percent: u32,
    pub day_brightness_percent: u32,
}

/// A place on the earth, in degrees times 10^7.
#[derive(Debug, Copy, Clone, PartialEq, Eq, Structural)]
pub struct Coordinates {
    pub latitude_e7: i32,
    pub longitude_e7: i32,
}

/// How a line is shown.
#[derive(Debug)]
pub struct LineConfig {
    pub line_name: String,
    pub enabled: bool,
    /// Whether `enabled`, `brightness_percent` and `override_color_rgb8` count.
    pub has_override: bool,
    pub brightness_percent: u32,
    pub original_color_rgb8: u32,
    pub override_color_rgb8: u32,
}

/// How the device shows what it shows, shared with the server.
#[derive(Debug)]
pub struct DeviceConfig {
    pub brightness_percent: u32,
    pub current_limit_ma: u32,
    pub color_mode: ColorMode,
    pub primary_color_rgb8: u32,
    pub secondary_color_rgb8: u32,
    pub tertiary_color_rgb8: u32,
    pub color_temperature_shift: i32,
    pub disruption_mode: DisruptionMode,
    pub disruption_color_rgb8: u32,
    pub disruption_brightness_percent: u32,
    pub disruption_interval: DisruptionInterval,
    pub animation_speed_percent: u32,
    pub render_mode: RenderMode,
    pub vehicle_filter: VehicleFilter,
    pub vehicle_distance_threshold_meters: u32,
    pub timer_settings: TimerSettings,
    pub auto_firmware_update_enabled: bool,
    pub min_delay_minutes: u32,
    pub max_delay_minutes: u32,
    pub min_speed_kmph: u32,
    pub max_speed_kmph: u32,
    pub line_configs: Vec<LineConfig>,
    pub timezone_iana: Option<String>,
    pub realtime_filter: RealtimeFilter,
    pub sunlight_auto_brightness: SunlightAutoBrightness,
    pub location_coord: Option<Coordinates>,
    pub location_name: Option<String>,
    pub disruption_filter: DisruptionFilter,
}

/// A line of the transit network.
#[derive(Debug)]
pub struct Line {
    pub name: String,
    pub color_rgb8: u32,
}

#[derive(Debug, Copy, Clone, PartialEq, Eq, Structural)]
pub struct Stop {
    /// The highest bit tells a station, the others are the latitude.
    pub is_station_x_latitude_e7: i32,
    pub longitude_e7: i32,
}

#[derive(Debug, Copy, Clone, PartialEq, Eq, Structural)]
pub struct ViaStop {
    pub stop_id_x_move_seconds: u32,
}

/// A vehicle's way from one stop to the next, and its wait there.
#[derive(Debug)]
pub struct Segment {
    pub from_stop_id_x_to_stop_id: u32,
    pub move_seconds_x_wait_seconds: u32,
    pub canceled_x_start_offset_seconds_x_via_total_move_seconds: u32,
    pub delayed_seconds_x_average_speed_kmph: i32,
    pub via_stops: Vec<ViaStop>,
}

#[derive(Debug)]
pub struct VehicleMovement {
    pub line_id_x_trip_id: u32,
    pub segments: Vec<Segment>,
}

#[derive(Debug, Copy, Clone, PartialEq, Eq, Structural)]
pub struct Disruption {
    pub line_id_x_disruption_id: u32,
    pub from_stop_id_x_to_stop_id: u32,
    pub direction_hint_from_stop_id_x_to_stop_id: u32,
    pub bidirectional_x_entire_line_x_affects_all_lines_x_stop_count: u32,
}

/// What moves on the map, and what does not.
#[derive(Debug)]
pub struct TransitData {
    pub lines: Vec<Line>,
    pub stops: Vec<Stop>,
    pub vehicle_movements: Vec<VehicleMovement>,
    pub disruptions: Vec<Disruption>,
    pub sourced_at_unix_timestamp: u32,
    pub simulated_until_unix_timestamp: u32,
    pub feed_source: String,
}

impl TransitData {
    /// Whether there is nothing in it.
    pub open spec fn is_empty(self) -> bool {
        &&& self.lines@.len() == 0
        &&& self.stops@.len() == 0
        &&& self.vehicle_movements@.len() == 0
        &&& self.disruptions@.len() == 0
        &&& self.sourced_at_unix_timestamp == 0
        &&& self.simulated_until_unix_timestamp == 0
        &&& self.feed_source@.len() == 0
    }
}

impl Default for TransitData {
    fn default() -> (d: Self)
        ensures
            d.is_empty(),
    {
        TransitData {
            lines: Vec::new(),
            stops: Vec::new(),
            vehicle_movements: Vec::new(),
            disruptions: Vec::new(),
            sourced_at_unix_timestamp: 0,
            simulated_until_unix_timestamp: 0,
            feed_source: String::new(),
        }
    }
}

/// How many vehicles a line has.
#[derive(Debug)]
pub struct AvailableVehicleLine {
    pub line_name: String,
    pub vehicle_count: u32,
}

/// Where a line is disrupted.
#[derive(Debug)]
pub struct AvailableDisruptedLine {
    pub line_name: String,
    pub stop_count: u32,
    pub bidirectional: bool,
    pub entire_line: bool,
    pub from_coord: Coordinates,
    pub to_coord: Option<Coordinates>,
    pub direction_hint_from_coord: Option<Coordinates>,
    pub direction_hint_to_coord: Option<Coordinates>,
    pub affects_all_lines: bool,
}

#[derive(Debug)]
pub struct DeviceTelemetry {
    pub uptime_seconds: u32,
    pub wifi_rssi_dbm: i32,
    pub current_estimate_milliamps: u32,
    pub update_progress_percent: u32,
    pub update_speed_bytes_per_second: u32,
    pub num_vehicles_available: u32,
    pub num_vehicles_visible: u32,
    pub num_disruptions_available: u32,
    pub num_disruptions_visible: u32,
    pub num_pixels_on: u32,
    pub last_transit_data_received_unix_timestamp: u32,
    pub last_transit_data_sourced_unix_timestamp: u32,
    pub last_transit_data_simulated_until_unix_timestamp: u32,
    pub transit_data_downlink_bytes_per_second: u32,
    pub available_vehicle_lines: Vec<AvailableVehicleLine>,
    pub heap_size_bytes: u32,
    pub heap_max_used_bytes: u32,
    pub heap_current_used_bytes: u32,
    pub feed_source: String,
    pub num_vehicles_visible_real_time: u32,
    pub available_disrupted_lines: Vec<AvailableDisruptedLine>,
    pub brightness_percent: u32,
    pub auto_update_scheduled_unix_timestamp: Option<u32>,
}

#[derive(Debug, Copy, Clone, PartialEq, Eq, Structural)]
pub enum DeviceErrorType {
    Panic,
    Error,
    Warning,
}

#[derive(Debug)]
pub struct DeviceError {
    pub error_type: DeviceErrorType,
    pub instant_milliseconds: u32,
    pub message: String,
    pub file_name: String,
    pub line_number: u32,
    pub column_number: u32,
    pub unix_timestamp: u32,
}

#[derive(Debug)]
pub struct DeviceErrors {
    pub errors: Vec<DeviceError>,
}

#[derive(Debug, Copy, Clone, PartialEq, Eq, Structural)]
pub struct DeviceInfo {
    pub firmware_version_major: u32,
    pub firmware_version_minor: u32,
    pub firmware_version_patch: u32,
    pub is_beta_firmware: bool,
    pub is_rolled_back_firmware: bool,
    pub is_factory_firmware: bool,
}

/// Offers say the same exactly if they differ in nothing but which copies of their text and their
/// bytes they hold.
pub proof fn lemma_same_update(a: DeviceUpdate, b: DeviceUpdate)
    ensures
        a.same(b) <==> {
            &&& a == (DeviceUpdate {
                image_url: a.image_url,
                sha256_hash: a.sha256_hash,
                p256_signature: a.p256_signature,
                ..b
            })
            &&& a.image_url@ == b.image_url@
            &&& a.sha256_hash@ == b.sha256_hash@
            &&& a.p256_signature@ == b.p256_signature@
        },
{
}

} // verus!
