//! Persistent application settings, stored in flash.

use vstd::prelude::*;

use crate::config::ProductConfig;
use crate::effects::{Effect, Effects};
use crate::outside::bounded;
use crate::proto::{
    ColorMode, DeviceConfig, DisruptionFilter, DisruptionInterval, DisruptionMode, LineConfig,
    RealtimeFilter, RenderMode, SunlightAutoBrightness, TimerSettings, VehicleFilter,
};
use crate::trace::Report;
use crate::util;
use crate::util::pack_rgb8;

verus! {

/// Marks flash contents as settings.
pub const SETTINGS_MAGIC: u32 = 0xA562E1B;

/// Version of the settings that this firmware writes.
pub const SETTINGS_VERSION: u32 = 1;

/// Longest network name in bytes.
pub const WIFI_SSID_MAX_LEN: usize = 32;

/// Longest network password and longest token in bytes.
pub const SECRET_MAX_LEN: usize = 64;

#[derive(Debug)]
pub struct PersistSettings {
    pub magic: u32,
    pub version: u32,
    pub wifi_ssid: Option<String>,
    pub wifi_password: Option<String>,
    /// Short-lived token by which the server knows the device while it is set up.
    pub prov_token: Option<String>,
    /// Permanent token for requests to the server, obtained after setup.
    pub access_token: Option<String>,
    /// Device configuration, shared with the server.
    pub config: DeviceConfig,
}

/// The text of an optional string.
pub open spec fn text(s: Option<String>) -> Option<Seq<char>> {
    match s {
        Some(t) => Some(t@),
        None => None,
    }
}

/// Whether an optional string takes no more than `max` bytes.
pub open spec fn fits(s: Option<String>, max: int) -> bool {
    s matches Some(t) ==> vstd::utf8::encode_utf8(t@).len() <= max
}

/// Whether two optional strings hold the same text.
pub fn same_text(a: &Option<String>, b: &Option<String>) -> (r: bool)
    ensures
        r == (text(*a) == text(*b)),
{
    match (a, b) {
        (Some(x), Some(y)) => *x == *y,
        (None, None) => true,
        _ => false,
    }
}

impl LineConfig {
    /// Whether two line configurations say the same.
    pub open spec fn same(self, other: Self) -> bool {
        &&& self.line_name@ == other.line_name@
        &&& self.enabled == other.enabled
        &&& self.has_override == other.has_override
        &&& self.brightness_percent == other.brightness_percent
        &&& self.original_color_rgb8 == other.original_color_rgb8
        &&& self.override_color_rgb8 == other.override_color_rgb8
    }

    pub fn is_same(&self, other: &Self) -> (r: bool)
        ensures
            r == self.same(*other),
    {
        self.line_name == other.line_name && self.enabled == other.enabled && self.has_override
            == other.has_override && self.brightness_percent == other.brightness_percent
            && self.original_color_rgb8 == other.original_color_rgb8 && self.override_color_rgb8
            == other.override_color_rgb8
    }
}

impl DeviceConfig {
    /// Whether two configurations say the same.
    pub open spec fn same(self, other: Self) -> bool {
        &&& self.brightness_percent == other.brightness_percent
        &&& self.current_limit_ma == other.current_limit_ma
        &&& self.color_mode == other.color_mode
        &&& self.primary_color_rgb8 == other.primary_color_rgb8
        &&& self.secondary_color_rgb8 == other.secondary_color_rgb8
        &&& self.tertiary_color_rgb8 == other.tertiary_color_rgb8
        &&& self.color_temperature_shift == other.color_temperature_shift
        &&& self.disruption_mode == other.disruption_mode
        &&& self.disruption_color_rgb8 == other.disruption_color_rgb8
        &&& self.disruption_brightness_percent == other.disruption_brightness_percent
        &&& self.disruption_interval == other.disruption_interval
        &&& self.animation_speed_percent == other.animation_speed_percent
        &&& self.render_mode == other.render_mode
        &&& self.vehicle_filter == other.vehicle_filter
        &&& self.vehicle_distance_threshold_meters == other.vehicle_distance_threshold_meters
        &&& self.timer_settings == other.timer_settings
        &&& self.auto_firmware_update_enabled == other.auto_firmware_update_enabled
        &&& self.min_delay_minutes == other.min_delay_minutes
        &&& self.max_delay_minutes == other.max_delay_minutes
        &&& self.min_speed_kmph == other.min_speed_kmph
        &&& self.max_speed_kmph == other.max_speed_kmph
        &&& self.line_configs@.len() == other.line_configs@.len()
        &&& forall|i: int|
            0 <= i < self.line_configs@.len() ==> (#[trigger] self.line_configs@[i]).same(
                other.line_configs@[i],
            )
        &&& text(self.timezone_iana) == text(other.timezone_iana)
        &&& self.realtime_filter == other.realtime_filter
        &&& self.sunlight_auto_brightness == other.sunlight_auto_brightness
        &&& self.location_coord == other.location_coord
        &&& text(self.location_name) == text(other.location_name)
        &&& self.disruption_filter == other.disruption_filter
    }

    pub fn is_same(&self, other: &Self) -> (r: bool)
        ensures
            r == self.same(*other),
    {
        let same_place = match (self.location_coord, other.location_coord) {
            (Some(a), Some(b)) => a == b,
            (None, None) => true,
            _ => false,
        };
        let same_head = self.brightness_percent == other.brightness_percent && self.current_limit_ma
            == other.current_limit_ma && self.color_mode == other.color_mode
            && self.primary_color_rgb8 == other.primary_color_rgb8 && self.secondary_color_rgb8
            == other.secondary_color_rgb8 && self.tertiary_color_rgb8 == other.tertiary_color_rgb8
            && self.color_temperature_shift == other.color_temperature_shift
            && self.disruption_mode == other.disruption_mode && self.disruption_color_rgb8
            == other.disruption_color_rgb8 && self.disruption_brightness_percent
            == other.disruption_brightness_percent && self.disruption_interval
            == other.disruption_interval && self.animation_speed_percent
            == other.animation_speed_percent && self.render_mode == other.render_mode
            && self.vehicle_filter == other.vehicle_filter
            && self.vehicle_distance_threshold_meters == other.vehicle_distance_threshold_meters
            && self.timer_settings == other.timer_settings && self.auto_firmware_update_enabled
            == other.auto_firmware_update_enabled;
        let same_tail = self.min_delay_minutes == other.min_delay_minutes && self.max_delay_minutes
            == other.max_delay_minutes && self.min_speed_kmph == other.min_speed_kmph
            && self.max_speed_kmph == other.max_speed_kmph && same_text(
            &self.timezone_iana,
            &other.timezone_iana,
        ) && self.realtime_filter == other.realtime_filter && self.sunlight_auto_brightness
            == other.sunlight_auto_brightness && same_place && same_text(
            &self.location_name,
            &other.location_name,
        ) && self.disruption_filter == other.disruption_filter;
        if !same_head || !same_tail || self.line_configs.len() != other.line_configs.len() {
            return false;
        }
        let mut i: usize = 0;
        while i < self.line_configs.len()
            invariant
                i <= self.line_configs@.len(),
                self.line_configs@.len() == other.line_configs@.len(),
                forall|j: int|
                    0 <= j < i ==> (#[trigger] self.line_configs@[j]).same(other.line_configs@[j]),
            decreases self.line_configs@.len() - i,
        {
            if !self.line_configs[i].is_same(&other.line_configs[i]) {
                assert(!self.line_configs@[i as int].same(other.line_configs@[i as int]));
                return false;
            }
            i = i + 1;
        }
        true
    }
}

fn duplicate_text(s: &Option<String>) -> (r: Option<String>)
    ensures
        text(r) == text(*s),
{
    match s {
        Some(t) => Some(t.clone()),
        None => None,
    }
}

fn duplicate_line_configs(configs: &Vec<LineConfig>) -> (r: Vec<LineConfig>)
    ensures
        r@ == configs@,
{
    let mut r: Vec<LineConfig> = Vec::new();
    let mut i: usize = 0;
    while i < configs.len()
        invariant
            i <= configs@.len(),
            r@ == configs@.take(i as int),
        decreases configs@.len() - i,
    {
        let c = &configs[i];
        let copy = LineConfig {
            line_name: c.line_name.clone(),
            enabled: c.enabled,
            has_override: c.has_override,
            brightness_percent: c.brightness_percent,
            original_color_rgb8: c.original_color_rgb8,
            override_color_rgb8: c.override_color_rgb8,
        };
        assert(copy == *c);
        r.push(copy);
        i = i + 1;
        assert(configs@.take(i as int) =~= configs@.take(i - 1).push(configs@[i - 1]));
    }
    assert(configs@.take(i as int) =~= configs@);
    r
}

impl DeviceConfig {
    /// A second copy of the configuration.
    pub fn duplicate(&self) -> (r: Self)
        ensures
            r.same(*self),
    {
        DeviceConfig {
            brightness_percent: self.brightness_percent,
            current_limit_ma: self.current_limit_ma,
            color_mode: self.color_mode,
            primary_color_rgb8: self.primary_color_rgb8,
            secondary_color_rgb8: self.secondary_color_rgb8,
            tertiary_color_rgb8: self.tertiary_color_rgb8,
            color_temperature_shift: self.color_temperature_shift,
            disruption_mode: self.disruption_mode,
            disruption_color_rgb8: self.disruption_color_rgb8,
            disruption_brightness_percent: self.disruption_brightness_percent,
            disruption_interval: self.disruption_interval,
            animation_speed_percent: self.animation_speed_percent,
            render_mode: self.render_mode,
            vehicle_filter: self.vehicle_filter,
            vehicle_distance_threshold_meters: self.vehicle_distance_threshold_meters,
            timer_settings: self.timer_settings,
            auto_firmware_update_enabled: self.auto_firmware_update_enabled,
            min_delay_minutes: self.min_delay_minutes,
            max_delay_minutes: self.max_delay_minutes,
            min_speed_kmph: self.min_speed_kmph,
            max_speed_kmph: self.max_speed_kmph,
            line_configs: duplicate_line_configs(&self.line_configs),
            timezone_iana: duplicate_text(&self.timezone_iana),
            realtime_filter: self.realtime_filter,
            sunlight_auto_brightness: self.sunlight_auto_brightness,
            location_coord: self.location_coord,
            location_name: duplicate_text(&self.location_name),
            disruption_filter: self.disruption_filter,
        }
    }
}

impl DeviceConfig {
    /// Whether this configuration is `other`, but for the configurations of lines.
    pub open spec fn without_lines(self, other: Self) -> bool {
        self == (DeviceConfig { line_configs: self.line_configs, ..other })
    }
}

impl PersistSettings {
    /// Whether these settings are `other`, but for the configuration.
    pub open spec fn without_config(self, other: Self) -> bool {
        self == (PersistSettings { config: self.config, ..other })
    }

    /// Whether two settings say the same.
    pub open spec fn same(self, other: Self) -> bool {
        &&& self.magic == other.magic
        &&& self.version == other.version
        &&& text(self.wifi_ssid) == text(other.wifi_ssid)
        &&& text(self.wifi_password) == text(other.wifi_password)
        &&& text(self.prov_token) == text(other.prov_token)
        &&& text(self.access_token) == text(other.access_token)
        &&& self.config.same(other.config)
    }

    pub fn is_same(&self, other: &Self) -> (r: bool)
        ensures
            r == self.same(*other),
    {
        self.magic == other.magic && self.version == other.version && same_text(
            &self.wifi_ssid,
            &other.wifi_ssid,
        ) && same_text(&self.wifi_password, &other.wifi_password) && same_text(
            &self.prov_token,
            &other.prov_token,
        ) && same_text(&self.access_token, &other.access_token) && self.config.is_same(
            &other.config,
        )
    }

    /// Whether every text takes no more room than there is for it in flash.
    pub open spec fn wf(self) -> bool {
        &&& fits(self.wifi_ssid, WIFI_SSID_MAX_LEN as int)
        &&& fits(self.wifi_password, SECRET_MAX_LEN as int)
        &&& fits(self.prov_token, SECRET_MAX_LEN as int)
        &&& fits(self.access_token, SECRET_MAX_LEN as int)
    }

    pub fn clear_wifi_credentials_and_auth(&mut self)
        ensures
            *final(self) == (PersistSettings {
                wifi_ssid: None,
                wifi_password: None,
                prov_token: None,
                access_token: None,
                ..*old(self)
            }),
    {
        self.wifi_ssid = None;
        self.wifi_password = None;
        self.prov_token = None;
        self.access_token = None;
    }

    /// Whether the device can connect to its network and to the server.
    pub open spec fn is_provisioned(self) -> bool {
        self.wifi_ssid is Some && self.wifi_password is Some && self.access_token is Some
    }

    pub fn has_credentials_and_is_authenticated(&self) -> (r: bool)
        ensures
            r == self.is_provisioned(),
    {
        self.wifi_ssid.is_some() && self.wifi_password.is_some() && self.access_token.is_some()
    }
}

/// The configuration that a product starts with.
pub open spec fn is_default_config(c: DeviceConfig, product: ProductConfig) -> bool {
    &&& c.brightness_percent == 25
    &&& c.current_limit_ma == 1000
    &&& c.color_mode == ColorMode::Original
    &&& c.primary_color_rgb8 == util::packed_rgb8(31, 255, 102)
    &&& c.secondary_color_rgb8 == util::packed_rgb8(255, 56, 20)
    &&& c.tertiary_color_rgb8 == util::packed_rgb8(107, 255, 179)
    &&& c.color_temperature_shift == 0
    &&& c.disruption_mode == DisruptionMode::Off
    &&& c.disruption_color_rgb8 == util::packed_rgb8(255, 0, 76)
    &&& c.disruption_brightness_percent == 80
    &&& c.disruption_interval == DisruptionInterval::Every3s
    &&& c.animation_speed_percent == 100
    &&& c.render_mode == RenderMode::SnapClosestTransition
    &&& c.vehicle_filter == VehicleFilter::All
    &&& c.vehicle_distance_threshold_meters == 500
    &&& c.timer_settings == (TimerSettings {
        enabled: false,
        start_time_of_day_seconds: 36000,
        end_time_of_day_seconds: 64800,
        weekdays_bitmask: 0x7F,
    })
    &&& c.auto_firmware_update_enabled
    &&& c.min_delay_minutes == product.min_delay_minutes
    &&& c.max_delay_minutes == product.max_delay_minutes
    &&& c.min_speed_kmph == product.min_speed_kmph
    &&& c.max_speed_kmph == product.max_speed_kmph
    &&& c.line_configs@.len() == 0
    &&& c.timezone_iana is None
    &&& c.realtime_filter == RealtimeFilter::ScheduledAndRealtime
    &&& c.sunlight_auto_brightness == (SunlightAutoBrightness {
        enabled: false,
        night_brightness_percent: 20,
        day_brightness_percent: 45,
    })
    &&& c.location_coord is None
    &&& c.location_name is None
    &&& c.disruption_filter == DisruptionFilter::Severe
}

/// The settings that a product starts with.
pub open spec fn is_default(s: PersistSettings, product: ProductConfig) -> bool {
    &&& s.magic == SETTINGS_MAGIC
    &&& s.version == SETTINGS_VERSION
    &&& s.wifi_ssid is None
    &&& s.wifi_password is None
    &&& s.prov_token is None
    &&& s.access_token is None
    &&& is_default_config(s.config, product)
}

pub fn persist_settings_default(product: &ProductConfig) -> (s: PersistSettings)
    ensures
        is_default(s, *product),
{
    PersistSettings {
        magic: SETTINGS_MAGIC,
        version: SETTINGS_VERSION,
        wifi_ssid: None,
        wifi_password: None,
        prov_token: None,
        access_token: None,
        config: DeviceConfig {
            brightness_percent: 25,
            current_limit_ma: 1000,
            color_mode: ColorMode::Original,
            primary_color_rgb8: pack_rgb8(31, 255, 102),
            secondary_color_rgb8: pack_rgb8(255, 56, 20),
            tertiary_color_rgb8: pack_rgb8(107, 255, 179),
            color_temperature_shift: 0,
            disruption_mode: DisruptionMode::Off,
            disruption_color_rgb8: pack_rgb8(255, 0, 76),
            disruption_brightness_percent: 80,
            disruption_interval: DisruptionInterval::Every3s,
            animation_speed_percent: 100,
            render_mode: RenderMode::SnapClosestTransition,
            vehicle_filter: VehicleFilter::All,
            vehicle_distance_threshold_meters: 500,
            timer_settings: TimerSettings {
                enabled: false,
                start_time_of_day_seconds: 10 * 60 * 60,
                end_time_of_day_seconds: 18 * 60 * 60,
                weekdays_bitmask: 0x7F,
            },
            auto_firmware_update_enabled: true,
            min_delay_minutes: product.min_delay_minutes,
            max_delay_minutes: product.max_delay_minutes,
            min_speed_kmph: product.min_speed_kmph,
            max_speed_kmph: product.max_speed_kmph,
            line_configs: Vec::new(),
            timezone_iana: None,
            realtime_filter: RealtimeFilter::ScheduledAndRealtime,
            sunlight_auto_brightness: SunlightAutoBrightness {
                enabled: false,
                night_brightness_percent: 20,
                day_brightness_percent: 45,
            },
            location_coord: None,
            location_name: None,
            disruption_filter: DisruptionFilter::Severe,
        },
    }
}

/// All settings that a product starts with say the same.
pub proof fn lemma_one_default(a: PersistSettings, b: PersistSettings, product: ProductConfig)
    requires
        is_default(a, product),
        is_default(b, product),
    ensures
        a.same(b),
        a.wf(),
        !a.is_provisioned(),
{
}

/// Credentials that were given to the build, in place of those in flash.
#[derive(Debug)]
pub struct Overrides {
    pub wifi_ssid: Option<String>,
    pub wifi_password: Option<String>,
    pub prov_token: Option<String>,
    pub api_token: Option<String>,
}

/// The text that takes the place of `stored`: a text that is too long takes it as no text.
pub open spec fn overridden(
    stored: Option<String>,
    given: Option<String>,
    max: int,
) -> Option<Seq<char>> {
    match given {
        None => text(stored),
        Some(t) => if vstd::utf8::encode_utf8(t@).len() <= max {
            Some(t@)
        } else {
            None
        },
    }
}

fn override_ssid(stored: Option<String>, given: &Option<String>) -> (r: Option<String>)
    ensures
        text(r) == overridden(stored, *given, WIFI_SSID_MAX_LEN as int),
{
    match given {
        None => stored,
        Some(t) => bounded::string_of_capacity::<32>(t.as_str()),
    }
}

fn override_secret(stored: Option<String>, given: &Option<String>) -> (r: Option<String>)
    ensures
        text(r) == overridden(stored, *given, SECRET_MAX_LEN as int),
{
    match given {
        None => stored,
        Some(t) => bounded::string_of_capacity::<64>(t.as_str()),
    }
}

/// The settings to start with, from what was read from flash: the defaults if nothing could be
/// read or if it was not settings, with the credentials that were given to the build.
pub fn init(
    read: Option<PersistSettings>,
    overrides: &Overrides,
    product: &ProductConfig,
    fx: &mut Effects,
) -> (s: PersistSettings)
    ensures
        match read {
            Some(r) if r.magic == SETTINGS_MAGIC => {
                &&& s.magic == r.magic
                &&& s.version == r.version
                &&& s.config == r.config
                &&& text(s.wifi_ssid) == overridden(
                    r.wifi_ssid,
                    overrides.wifi_ssid,
                    WIFI_SSID_MAX_LEN as int,
                )
                &&& text(s.wifi_password) == overridden(
                    r.wifi_password,
                    overrides.wifi_password,
                    SECRET_MAX_LEN as int,
                )
                &&& text(s.prov_token) == overridden(
                    r.prov_token,
                    overrides.prov_token,
                    SECRET_MAX_LEN as int,
                )
                &&& text(s.access_token) == overridden(
                    r.access_token,
                    overrides.api_token,
                    SECRET_MAX_LEN as int,
                )
            },
            _ => {
                &&& s.magic == SETTINGS_MAGIC
                &&& s.version == SETTINGS_VERSION
                &&& is_default_config(s.config, *product)
                &&& text(s.wifi_ssid) == overridden(
                    None,
                    overrides.wifi_ssid,
                    WIFI_SSID_MAX_LEN as int,
                )
                &&& text(s.wifi_password) == overridden(
                    None,
                    overrides.wifi_password,
                    SECRET_MAX_LEN as int,
                )
                &&& text(s.prov_token) == overridden(
                    None,
                    overrides.prov_token,
                    SECRET_MAX_LEN as int,
                )
                &&& text(s.access_token) == overridden(
                    None,
                    overrides.api_token,
                    SECRET_MAX_LEN as int,
                )
            },
        },
        (read matches Some(r) ==> r.wf()) ==> s.wf(),
        final(fx)@ == (match read {
            Some(r) if r.magic != SETTINGS_MAGIC => old(fx)@.push(
                Effect::Report(Report::SettingsMagicInvalid { magic: r.magic }),
            ),
            _ => old(fx)@,
        }),
{
    let mut settings = match read {
        Some(r) => r,
        None => persist_settings_default(product),
    };
    if settings.magic != SETTINGS_MAGIC {
        fx.push(Effect::Report(Report::SettingsMagicInvalid { magic: settings.magic }));
        settings = persist_settings_default(product);
    }
    let PersistSettings {
        magic,
        version,
        wifi_ssid,
        wifi_password,
        prov_token,
        access_token,
        config,
    } = settings;
    PersistSettings {
        magic,
        version,
        wifi_ssid: override_ssid(wifi_ssid, &overrides.wifi_ssid),
        wifi_password: override_secret(wifi_password, &overrides.wifi_password),
        prov_token: override_secret(prov_token, &overrides.prov_token),
        access_token: override_secret(access_token, &overrides.api_token),
        config,
    }
}

/// Has the settings written to flash if they changed, which saves write cycles. Returns whether
/// they did.
pub fn note_update(changed: bool, fx: &mut Effects) -> (r: bool)
    ensures
        r == changed,
        final(fx)@ == stored_if(old(fx)@, changed),
{
    if changed {
        fx.push(Effect::StorePersistSettings);
    }
    changed
}

/// The effects `fx`, and a write of the settings to flash if they changed.
pub open spec fn stored_if(fx: Seq<Effect>, changed: bool) -> Seq<Effect> {
    if changed {
        fx.push(Effect::StorePersistSettings)
    } else {
        fx
    }
}

/// Configurations of lines say the same exactly if they are the same but for which copy of the name
/// they hold.
pub proof fn lemma_same_line_config(a: LineConfig, b: LineConfig)
    ensures
        a.same(b) <==> a == (LineConfig { line_name: a.line_name, ..b }) && a.line_name@
            == b.line_name@,
{
}

/// Configurations say the same exactly if nothing in them differs but which copies of their texts
/// they hold: a change of anything else is a change.
pub proof fn lemma_same_config(a: DeviceConfig, b: DeviceConfig)
    ensures
        a.same(b) <==> {
            &&& a == (DeviceConfig {
                line_configs: a.line_configs,
                timezone_iana: a.timezone_iana,
                location_name: a.location_name,
                ..b
            })
            &&& text(a.timezone_iana) == text(b.timezone_iana)
            &&& text(a.location_name) == text(b.location_name)
            &&& a.line_configs@.len() == b.line_configs@.len()
            &&& forall|i: int|
                0 <= i < a.line_configs@.len() ==> (#[trigger] a.line_configs@[i]).same(
                    b.line_configs@[i],
                )
        },
{
}

/// Settings say the same exactly if their texts and their configurations do.
pub proof fn lemma_same_settings(a: PersistSettings, b: PersistSettings)
    ensures
        a.same(a),
        a.same(b) <==> b.same(a),
        a.same(b) <==> {
            &&& a.magic == b.magic && a.version == b.version
            &&& text(a.wifi_ssid) == text(b.wifi_ssid)
            &&& text(a.wifi_password) == text(b.wifi_password)
            &&& text(a.prov_token) == text(b.prov_token)
            &&& text(a.access_token) == text(b.access_token)
            &&& a.config.same(b.config)
        },
{
    if a.config.same(b.config) {
        assert forall|i: int| 0 <= i < b.config.line_configs@.len() implies (
        #[trigger] b.config.line_configs@[i]).same(a.config.line_configs@[i]) by {
            assert(a.config.line_configs@[i].same(b.config.line_configs@[i]));
        }
        assert(b.config.same(a.config));
    }
    if b.config.same(a.config) {
        assert forall|i: int| 0 <= i < a.config.line_configs@.len() implies (
        #[trigger] a.config.line_configs@[i]).same(b.config.line_configs@[i]) by {
            assert(b.config.line_configs@[i].same(a.config.line_configs@[i]));
        }
        assert(a.config.same(b.config));
    }
}

/// A device is set up exactly if it has a network, its password and an access token.
pub proof fn lemma_provisioned(s: PersistSettings)
    ensures
        s.is_provisioned() <==> text(s.wifi_ssid) is Some && text(s.wifi_password) is Some && text(
            s.access_token,
        ) is Some,
{
}

/// A text that is given takes the place of the one that is stored if there is room for it, and
/// leaves none if there is not. Without one the stored text stays.
pub proof fn lemma_overridden(stored: Option<String>, given: Option<String>, max: int)
    ensures
        given is None ==> overridden(stored, given, max) == text(stored),
        given matches Some(t) ==> {
            &&& vstd::utf8::encode_utf8(t@).len() <= max ==> overridden(stored, given, max) == Some(
                t@,
            )
            &&& vstd::utf8::encode_utf8(t@).len() > max ==> overridden(stored, given, max) is None
        },
{
}

/// Settings are stored exactly if they changed, after all that was asked for before.
pub proof fn lemma_stored_if(fx: Seq<Effect>, changed: bool)
    ensures
        changed ==> stored_if(fx, changed).len() == fx.len() + 1 && stored_if(fx, changed).last()
            == Effect::StorePersistSettings && stored_if(fx, changed).drop_last() == fx,
        !changed ==> stored_if(fx, changed) == fx,
{
    assert(fx.push(Effect::StorePersistSettings).drop_last() =~= fx);
}

/// A new device belongs to no network. It shows all vehicles in the colors of their lines, and no
/// disruptions; updates by itself; leaves the light and the brightness to the user; and takes the
/// ranges of delays and speeds from its product.
pub proof fn lemma_defaults(s: PersistSettings, product: ProductConfig)
    requires
        is_default(s, product),
    ensures
        !s.is_provisioned(),
        s.prov_token is None,
        s.config.color_mode == ColorMode::Original,
        s.config.vehicle_filter == VehicleFilter::All,
        s.config.realtime_filter == RealtimeFilter::ScheduledAndRealtime,
        s.config.disruption_mode == DisruptionMode::Off,
        s.config.disruption_filter == DisruptionFilter::Severe,
        s.config.render_mode == RenderMode::SnapClosestTransition,
        s.config.auto_firmware_update_enabled,
        !s.config.timer_settings.enabled,
        s.config.timer_settings.start_time_of_day_seconds == 10 * 3600,
        s.config.timer_settings.end_time_of_day_seconds == 18 * 3600,
        s.config.timer_settings.weekdays_bitmask == 127,
        !s.config.sunlight_auto_brightness.enabled,
        s.config.brightness_percent == 25,
        s.config.current_limit_ma == 1000,
        s.config.animation_speed_percent == 100,
        s.config.color_temperature_shift == 0,
        s.config.line_configs@.len() == 0,
        s.config.min_delay_minutes == product.min_delay_minutes,
        s.config.max_delay_minutes == product.max_delay_minutes,
        s.config.min_speed_kmph == product.min_speed_kmph,
        s.config.max_speed_kmph == product.max_speed_kmph,
{
}

/// An optional string is told apart from an empty one, and holds its text.
pub proof fn lemma_optional_text(s: Option<String>)
    ensures
        text(s) is Some <==> s is Some,
        s matches Some(t) ==> text(s) == Some(t@),
{
}

/// Configurations that are the same but for their lines agree in all the rest, and are the same if
/// the lines are.
pub proof fn lemma_but_for_lines(a: DeviceConfig, b: DeviceConfig)
    ensures
        a.without_lines(a),
        a.without_lines(b) <==> b.without_lines(a),
        a.without_lines(b) && a.line_configs == b.line_configs ==> a == b,
        a.without_lines(b) ==> a.brightness_percent == b.brightness_percent && a.color_mode
            == b.color_mode && a.realtime_filter == b.realtime_filter && a.disruption_filter
            == b.disruption_filter,
{
}

} // verus!
