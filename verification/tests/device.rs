//! Buttons, time, automation and settings.

use ledtransit::automation::{self, SunPhase, SunStep};
use ledtransit::boot;
use ledtransit::buttons::{
    self, Button, ButtonEvent, ButtonPress, ButtonWait, ButtonsPressedState,
};
use ledtransit::config::{
    self, Config, FirmwareVersion, HardwareVersion, LocGeoKdNode, LocPixEdge, LocPixNode, Product,
    ProductConfig,
};
use ledtransit::device::Device;
use ledtransit::display::animations::{LedPixelsAnimationEvent, LedStatusAnimationEvent};
use ledtransit::display::leds::LedColor;
use ledtransit::effects::{Effect, Effects};
use ledtransit::net::wifi_net::WifiNetEvent;
use ledtransit::net::ws_client::{WsClientError, WsClientNotify};
use ledtransit::proto::{
    ColorMode, DeviceError, DeviceErrorType, DeviceUpdate, ServerInfo, TimerSettings,
};
use ledtransit::store::app_settings::persist::{self, Overrides, PersistSettings};
use ledtransit::store::app_settings::session::SessionSettings;
use ledtransit::store::ota::OtaEvent;
use ledtransit::time;
use ledtransit::trace::{self, ErrorLog, PersistablePanicInfo, Report};
use ledtransit::ui::{self, FollowUp};
use ledtransit::util::{self, NonMax, RGB8};

fn product() -> ProductConfig {
    ProductConfig {
        data_feed: "virtual",
        pixel_count: 2,
        pixel_indices_special: &[],
        loc_geo_kd_tree: &[],
        loc_pix_nodes: &[],
        min_delay_minutes: 0,
        max_delay_minutes: 10,
        min_speed_kmph: 0,
        max_speed_kmph: 100,
        cos_lat_q15: 1,
    }
}

fn defaults() -> PersistSettings {
    persist::persist_settings_default(&product())
}

fn device() -> Device {
    Device {
        persist: defaults(),
        session: SessionSettings::default(),
        transit: None,
        leds: vec![util::black(); 3],
    }
}

fn shown(fx: &Effects) -> String {
    format!("{:?}", fx.list)
}

// Numbers and colors

#[test]
fn largest_value_stands_for_none() {
    assert!(NonMax::<u16>::none().is_none());
    assert_eq!(NonMax::<u16>::none().as_option(), None);
    assert_eq!(NonMax::<u16>::new(7).unwrap().as_option(), Some(7));
    assert!(NonMax::<u16>::new(u16::MAX).is_none());
    assert!(NonMax::<u16>::new_unchecked(0).is_some());
}

#[test]
fn colors_pack_and_unpack() {
    assert_eq!(util::pack_rgb8(0x12, 0x34, 0x56), 0x123456);
    assert_eq!(util::rgb8_from_packed(0xFF123456), RGB8 { r: 0x12, g: 0x34, b: 0x56 });
    for c in [RGB8 { r: 1, g: 2, b: 3 }, RGB8 { r: 255, g: 0, b: 254 }] {
        assert_eq!(util::rgb8_from_packed(util::pack_rgb8(c.r, c.g, c.b)), c);
    }
    assert_eq!(
        util::rgb8_max(RGB8 { r: 1, g: 9, b: 3 }, RGB8 { r: 4, g: 2, b: 3 }),
        RGB8 { r: 4, g: 9, b: 3 }
    );
    assert_eq!(util::get_high16(0xABCD1234), 0xABCD);
    assert_eq!(util::get_low16(0xABCD1234), 0x1234);
}

// Buttons

#[test]
fn setting_a_button_leaves_the_others() {
    let mut state = ButtonsPressedState::default();
    state.set_pressed(Button::Middle, true);
    assert!(state.is_pressed(Button::Middle));
    assert!(!state.is_pressed(Button::Up));
    assert!(!state.is_pressed(Button::Down));
    assert!(!state.is_other_pressed(Button::Middle));
    assert!(state.is_other_pressed(Button::Up));
    state.clear();
    assert_eq!(state, ButtonsPressedState::default());
}

#[test]
fn short_and_long_presses() {
    let mut state = ButtonsPressedState::default();
    let step = buttons::on_button_event(
        &mut state,
        Button::Up,
        ButtonEvent::Pressed { bounced: false },
    );
    assert_eq!(step, (None, ButtonWait::ReleaseOrLong));
    let step = buttons::on_button_event(&mut state, Button::Up, ButtonEvent::Released);
    assert_eq!(step, (Some(ButtonPress::Short(Button::Up)), ButtonWait::Settle));
    let step = buttons::on_button_event(&mut state, Button::Up, ButtonEvent::Settled);
    assert_eq!(step, (None, ButtonWait::Press));
    assert!(!state.is_pressed(Button::Up));
    buttons::on_button_event(&mut state, Button::Down, ButtonEvent::Pressed { bounced: false });
    let step = buttons::on_button_event(&mut state, Button::Down, ButtonEvent::HeldLong);
    assert_eq!(step, (Some(ButtonPress::Long(Button::Down)), ButtonWait::Settle));
}

#[test]
fn bounces_make_no_press() {
    let mut state = ButtonsPressedState::default();
    let step =
        buttons::on_button_event(&mut state, Button::Up, ButtonEvent::Pressed { bounced: true });
    assert_eq!(step, (None, ButtonWait::Press));
    assert!(!state.is_pressed(Button::Up));
}

#[test]
fn buttons_held_together_make_one_press() {
    let mut state = ButtonsPressedState { up: true, down: true, select: false };
    let (press, _) = buttons::on_button_event(&mut state, Button::Up, ButtonEvent::HeldLong);
    assert_eq!(
        press,
        Some(ButtonPress::CombinedLong(ButtonsPressedState { up: true, down: true, select: false }))
    );
    let (press, wait) = buttons::on_button_event(&mut state, Button::Down, ButtonEvent::HeldLong);
    assert_eq!((press, wait), (None, ButtonWait::Press));
}

// Time

fn server_info() -> ServerInfo {
    ServerInfo {
        unix_timestamp: 1_700_000_000,
        local_time_of_day_seconds: 86_000,
        local_weekday_number: 6,
        local_sunrise_time_of_day_seconds: 6 * 3600,
        local_sunset_time_of_day_seconds: 20 * 3600,
    }
}

#[test]
fn clock_runs_on_after_a_sync() {
    let mut session = SessionSettings::default();
    assert!(!session.is_time_synced);
    time::sync(&mut session, &server_info(), 1000);
    assert!(session.is_time_synced);
    assert_eq!(time::get_unix_timestamp_seconds(&session, 1000), 1_700_000_000);
    assert_eq!(time::get_unix_timestamp_seconds(&session, 1500), 1_700_000_500);
    assert_eq!(time::get_local_seconds_since_midnight(&session, 1399), 86_399);
    assert_eq!(time::get_local_weekday_number(&session, 1399), 6);
    assert_eq!(time::get_local_seconds_since_midnight(&session, 1400), 0);
    assert_eq!(time::get_local_weekday_number(&session, 1400), 0);
    assert_eq!(time::get_local_weekday_number(&session, 1400 + 86_400), 1);
}

#[test]
fn sync_late_in_uptime() {
    let mut session = SessionSettings::default();
    let info = ServerInfo { unix_timestamp: 5, local_time_of_day_seconds: 5, ..server_info() };
    time::sync(&mut session, &info, 100);
    assert_eq!(time::get_unix_timestamp_seconds(&session, 103), 8);
    assert_eq!(time::get_local_seconds_since_midnight(&session, 103), 8);
}

// Automation

fn timer(start_hour: u32, end_hour: u32, weekdays_bitmask: u32) -> TimerSettings {
    TimerSettings {
        enabled: true,
        start_time_of_day_seconds: start_hour * 3600,
        end_time_of_day_seconds: end_hour * 3600,
        weekdays_bitmask,
    }
}

#[test]
fn timer_within_a_day() {
    let t = timer(10, 18, 0b0000010);
    assert!(automation::is_day_night_timer_driving_light_on(10 * 3600, 1, &t));
    assert!(automation::is_day_night_timer_driving_light_on(18 * 3600 - 1, 1, &t));
    assert!(!automation::is_day_night_timer_driving_light_on(18 * 3600, 1, &t));
    assert!(!automation::is_day_night_timer_driving_light_on(10 * 3600 - 1, 1, &t));
    assert!(!automation::is_day_night_timer_driving_light_on(12 * 3600, 2, &t));
    let off = TimerSettings { enabled: false, ..t };
    assert!(!automation::is_day_night_timer_driving_light_on(12 * 3600, 1, &off));
    assert!(!automation::is_day_night_timer_driving_light_on(12 * 3600, u32::MAX, &off));
    assert!(!automation::is_day_night_timer_driving_light_on(12 * 3600, 31, &t));
    let never = TimerSettings { weekdays_bitmask: 0, ..t };
    assert!(!automation::is_day_night_timer_driving_light_on(12 * 3600, 1, &never));
}

#[test]
fn timer_over_midnight() {
    let t = timer(22, 6, 0b1000000);
    assert!(automation::is_day_night_timer_driving_light_on(23 * 3600, 6, &t));
    assert!(automation::is_day_night_timer_driving_light_on(5 * 3600, 0, &t));
    assert!(!automation::is_day_night_timer_driving_light_on(6 * 3600, 0, &t));
    assert!(!automation::is_day_night_timer_driving_light_on(23 * 3600, 0, &t));
    assert!(!automation::is_day_night_timer_driving_light_on(5 * 3600, 6, &t));
}

#[test]
fn timer_turns_the_light_off_and_on() {
    let mut session = SessionSettings::default();
    time::sync(&mut session, &ServerInfo { local_time_of_day_seconds: 0, ..server_info() }, 0);
    session.light_on = true;
    let mut settings = defaults();
    settings.config.timer_settings = timer(10, 18, 0x7F);
    let mut leds = vec![util::black(); 3];
    let mut fx = Effects::new();
    let step = automation::drive_day_night_timer_light_state(
        &mut session,
        &settings,
        100,
        &mut leds,
        &mut fx,
    );
    assert_eq!(step, Some(false));
    assert_eq!(fx.list.len(), 4);
    automation::set_timer_light(&mut session, false, &mut fx);
    assert!(!session.light_on);
    assert!(session.night_timer_active);
    assert!(matches!(fx.list[4], Effect::Notify(WsClientNotify::Status)));
    let step = automation::drive_day_night_timer_light_state(
        &mut session,
        &settings,
        12 * 3600,
        &mut leds,
        &mut fx,
    );
    assert_eq!(step, Some(true));
    automation::set_timer_light(&mut session, true, &mut fx);
    assert!(session.light_on);
    assert!(!session.night_timer_active);
}

#[test]
fn override_holds_until_the_timer_agrees() {
    let mut session = SessionSettings::default();
    time::sync(&mut session, &ServerInfo { local_time_of_day_seconds: 0, ..server_info() }, 0);
    session.light_on = true;
    session.light_on_override = Some(true);
    let mut settings = defaults();
    settings.config.timer_settings = timer(10, 18, 0x7F);
    let mut leds = vec![util::black(); 3];
    let mut fx = Effects::new();
    let step = automation::drive_day_night_timer_light_state(
        &mut session,
        &settings,
        100,
        &mut leds,
        &mut fx,
    );
    assert_eq!(step, None);
    assert_eq!(session.light_on_override, Some(true));
    let step = automation::drive_day_night_timer_light_state(
        &mut session,
        &settings,
        12 * 3600,
        &mut leds,
        &mut fx,
    );
    assert_eq!(step, None);
    assert_eq!(session.light_on_override, None);
    assert!(fx.list.is_empty());
}

#[test]
fn sun_on_its_way() {
    assert_eq!(automation::get_sun_phase(3600, 7200, 72_000), SunPhase::Night);
    assert_eq!(
        automation::get_sun_phase(7200, 7200, 72_000),
        SunPhase::Day { seconds_since_sunrise: 0, day_length_seconds: 64_800 }
    );
    assert_eq!(
        automation::get_sun_phase(1000, 80_000, 2000),
        SunPhase::Day { seconds_since_sunrise: 7400, day_length_seconds: 8400 }
    );
}

#[test]
fn automatic_brightness_needs_the_time() {
    let mut session = SessionSettings::default();
    let mut settings = defaults();
    settings.config.sunlight_auto_brightness.enabled = true;
    assert_eq!(
        automation::plan_sunlight_auto_brightness(&session, &settings, 0),
        SunStep::Wait
    );
    time::sync(&mut session, &ServerInfo { local_time_of_day_seconds: 0, ..server_info() }, 0);
    match automation::plan_sunlight_auto_brightness(&session, &settings, 0) {
        SunStep::Follow(b) => {
            assert_eq!(b.phase, SunPhase::Night);
            assert_eq!((b.night_brightness_percent, b.day_brightness_percent), (20, 45));
        }
        other => panic!("{:?}", other),
    }
    settings.config.sunlight_auto_brightness.enabled = false;
    assert_eq!(automation::plan_sunlight_auto_brightness(&session, &settings, 0), SunStep::Off);
    let mut fx = Effects::new();
    automation::set_auto_brightness(&mut session, Some(30), &mut fx);
    automation::set_auto_brightness(&mut session, Some(30), &mut fx);
    assert_eq!(session.auto_brightness_percent, Some(30));
    assert_eq!(fx.list.len(), 1);
}

// Configuration

const EDGES_OF_FIRST: [LocPixEdge; 1] = [LocPixEdge { to_loc: 1, from_pix: 0, to_pix: 1, dir: 1 }];
const EDGES_OF_SECOND: [LocPixEdge; 1] = [LocPixEdge { to_loc: 0, from_pix: 1, to_pix: 0, dir: 2 }];
const NODES: [LocPixNode; 2] = [
    LocPixNode { lat_e7: 0, lng_e7: 0, modes: 1, edges: &EDGES_OF_FIRST },
    LocPixNode { lat_e7: 10, lng_e7: 0, modes: 1, edges: &EDGES_OF_SECOND },
];
const TREE: [LocGeoKdNode; 2] = [
    LocGeoKdNode { left: None, right: Some(1), loc: 0 },
    LocGeoKdNode { left: None, right: None, loc: 1 },
];

#[test]
fn descriptions_of_products() {
    let good = ProductConfig { loc_geo_kd_tree: &TREE, loc_pix_nodes: &NODES, ..product() };
    assert!(good.is_valid());
    assert!(!ProductConfig { pixel_count: 1, ..good }.is_valid());
    let good = ProductConfig { loc_geo_kd_tree: &TREE, loc_pix_nodes: &NODES, ..product() };
    assert!(!ProductConfig { pixel_indices_special: &[2], ..good }.is_valid());
    assert!(!ProductConfig { loc_geo_kd_tree: &TREE, ..product() }.is_valid());
}

#[test]
fn products_and_hardware() {
    assert_eq!(Product::Virt1_1_1.as_str(), "virt-1-1");
    assert_eq!(Product::Bln1_2512_1.as_str(), "bln1-2512-1");
    assert_eq!(Product::Bln2_2512_1.as_model_str(), "Berlin Rapid Transit Lightmap XL");
    let config = Config {
        product: Product::Bln1_2512_1,
        hw_version: HardwareVersion { major: 2512, minor: 1 },
        fw_version: FirmwareVersion { major: 1, minor: 0, patch: 0, beta: false },
        cfg: product(),
    };
    config::init(&config);
    let id: [u8; 16] = [0, 1, 2, 3, 4, 5, 6, 7, 8, 9, 10, 11, 12, 13, 0xAB, 0xFF];
    assert_eq!(config::get_hardware_id_str(&id), "000102030405060708090a0b0c0dabff");
}

// Settings

fn no_overrides() -> Overrides {
    Overrides { wifi_ssid: None, wifi_password: None, prov_token: None, api_token: None }
}

#[test]
fn settings_start_with_defaults() {
    let mut fx = Effects::new();
    let s = persist::init(None, &no_overrides(), &product(), &mut fx);
    assert!(s.is_same(&defaults()));
    assert_eq!(s.magic, 0xA562E1B);
    assert_eq!(s.config.brightness_percent, 25);
    assert_eq!(s.config.primary_color_rgb8, 0x1FFF66);
    assert_eq!(s.config.max_delay_minutes, 10);
    assert!(!s.has_credentials_and_is_authenticated());
    assert!(fx.list.is_empty());
}

#[test]
fn settings_that_are_none_are_reported() {
    let mut fx = Effects::new();
    let mut read = defaults();
    read.magic = 5;
    read.config.brightness_percent = 77;
    let s = persist::init(Some(read), &no_overrides(), &product(), &mut fx);
    assert_eq!(s.config.brightness_percent, 25);
    assert!(matches!(
        fx.list[0],
        Effect::Report(Report::SettingsMagicInvalid { magic: 5 })
    ));
}

#[test]
fn credentials_given_to_the_build() {
    let mut fx = Effects::new();
    let mut read = defaults();
    read.wifi_password = Some("stored".to_string());
    let overrides = Overrides {
        wifi_ssid: Some("net".to_string()),
        wifi_password: None,
        prov_token: None,
        api_token: Some("x".repeat(65)),
    };
    let s = persist::init(Some(read), &overrides, &product(), &mut fx);
    assert_eq!(s.wifi_ssid.as_deref(), Some("net"));
    assert_eq!(s.wifi_password.as_deref(), Some("stored"));
    assert_eq!(s.access_token, None);
    let overrides = Overrides { api_token: Some("x".repeat(64)), ..overrides };
    let mut s = persist::init(Some(s), &overrides, &product(), &mut fx);
    assert!(s.has_credentials_and_is_authenticated());
    s.clear_wifi_credentials_and_auth();
    assert!(!s.has_credentials_and_is_authenticated());
    assert_eq!(s.wifi_ssid, None);
}

#[test]
fn settings_are_stored_when_they_change() {
    let mut fx = Effects::new();
    assert!(!persist::note_update(false, &mut fx));
    assert!(fx.list.is_empty());
    assert!(persist::note_update(true, &mut fx));
    assert!(matches!(fx.list[0], Effect::StorePersistSettings));
    let copy = defaults().config.duplicate();
    assert!(copy.is_same(&defaults().config));
    let mut other = defaults().config;
    other.color_mode = ColorMode::Monochrome;
    assert!(!copy.is_same(&other));
}

// Errors

fn error(message: &str) -> DeviceError {
    DeviceError {
        error_type: DeviceErrorType::Error,
        instant_milliseconds: 1,
        message: message.to_string(),
        file_name: "f".to_string(),
        line_number: 2,
        column_number: 3,
        unix_timestamp: 0,
    }
}

#[test]
fn first_errors_stay() {
    let mut log = ErrorLog::new();
    for i in 0..6 {
        log.add_error(error(&format!("{}", i)));
    }
    let messages: Vec<String> = log.get_errors().into_iter().map(|e| e.message).collect();
    assert_eq!(messages, vec!["0", "1", "2", "3"]);
    let mut fx = Effects::new();
    log.flush_errors(&mut fx);
    assert!(matches!(fx.list[0], Effect::Notify(WsClientNotify::Errors)));
    log.clear_errors();
    assert!(log.get_errors().is_empty());
    let mut fx = Effects::new();
    log.flush_errors(&mut fx);
    assert!(fx.list.is_empty());
}

#[test]
fn errors_are_reported() {
    let mut log = ErrorLog::new();
    log.report_error(
        DeviceErrorType::Warning,
        "message".to_string(),
        "file.rs".to_string(),
        10,
        20,
        30,
    );
    let errors = log.get_errors();
    assert_eq!(errors.len(), 1);
    assert_eq!(errors[0].error_type, DeviceErrorType::Warning);
    assert_eq!(errors[0].message, "message");
    assert_eq!(errors[0].file_name, "file.rs");
    assert_eq!((errors[0].line_number, errors[0].column_number), (10, 20));
    assert_eq!(errors[0].instant_milliseconds, 30);
    assert_eq!(
        trace::severity(&Report::SettingsMagicInvalid { magic: 0 }),
        DeviceErrorType::Warning
    );
    assert_eq!(trace::severity(&Report::WsAuthFailed), DeviceErrorType::Error);
}

#[test]
fn panic_before_the_boot_is_logged() {
    let mut info = PersistablePanicInfo::new("src/main.rs", 1, 2, "boom", 99);
    info.crc32 = 7;
    let mut log = ErrorLog::new();
    assert!(!trace::init_on_boot(&info, Some(8), &mut log));
    assert!(!trace::init_on_boot(&info, None, &mut log));
    assert!(log.get_errors().is_empty());
    assert!(trace::init_on_boot(&info, Some(7), &mut log));
    let errors = log.get_errors();
    assert_eq!(errors[0].error_type, DeviceErrorType::Panic);
    assert_eq!(errors[0].message, "boom");
    info.did_panic = false;
    assert!(!trace::init_on_boot(&info, Some(7), &mut log));
    let long = PersistablePanicInfo::new(&"f".repeat(65), 1, 2, &"m".repeat(129), 99);
    assert_eq!(long.file_name, "unknown");
    assert_eq!(long.message, "unknown");
}

// The user interface

#[test]
fn brightness_in_steps() {
    let mut d = device();
    let mut fx = Effects::new();
    ui::on_short_press(&mut d, Button::Up, 5, &mut fx);
    assert_eq!(d.persist.config.brightness_percent, 30);
    assert_eq!(
        shown(&fx),
        "[StorePersistSettings, UpdateLeds, Notify(Config), RenderNow]"
    );
    ui::on_short_press(&mut d, Button::Down, 5, &mut fx);
    assert_eq!(d.persist.config.brightness_percent, 25);
    d.persist.config.brightness_percent = 98;
    ui::on_short_press(&mut d, Button::Up, 5, &mut fx);
    assert_eq!(d.persist.config.brightness_percent, 100);
    let mut fx = Effects::new();
    ui::on_short_press(&mut d, Button::Up, 5, &mut fx);
    assert!(fx.list.is_empty());
    d.persist.config.brightness_percent = 7;
    ui::on_short_press(&mut d, Button::Down, 5, &mut fx);
    assert_eq!(d.persist.config.brightness_percent, 5);
}

#[test]
fn light_toggles_and_back() {
    let mut d = device();
    d.session.light_on = true;
    let mut fx = Effects::new();
    ui::on_short_press(&mut d, Button::Middle, 5, &mut fx);
    assert!(!d.session.light_on);
    assert_eq!(d.session.light_on_override, Some(false));
    ui::on_short_press(&mut d, Button::Middle, 5, &mut fx);
    assert!(d.session.light_on);
    assert_eq!(d.session.light_on_override, Some(true));
}

#[test]
fn long_presses_change_more() {
    let mut d = device();
    let mut fx = Effects::new();
    assert_eq!(ui::on_long_press(&mut d, Button::Up, 5, &mut fx), FollowUp::Nothing);
    assert_eq!(d.persist.config.color_mode, ColorMode::DelayHeatmap);
    ui::on_long_press(&mut d, Button::Up, 5, &mut fx);
    assert_eq!(d.persist.config.color_mode, ColorMode::Original);
    d.persist.wifi_ssid = Some("net".to_string());
    let mut fx = Effects::new();
    assert_eq!(ui::on_long_press(&mut d, Button::Middle, 5, &mut fx), FollowUp::ShowDemo);
    assert_eq!(d.persist.wifi_ssid, None);
    assert!(matches!(fx.list[0], Effect::StorePersistSettings));
    assert!(matches!(fx.list[1], Effect::QuitWs(Ok(()))));
    assert!(matches!(fx.list[2], Effect::WifiSignal(WifiNetEvent::StartProvisioning)));
    let mut fx = Effects::new();
    ui::on_long_press(&mut d, Button::Down, 5, &mut fx);
    assert!(fx.list.is_empty());
    d.session.firmware_update_available = Some(DeviceUpdate {
        firmware_version_major: 1,
        firmware_version_minor: 2,
        firmware_version_patch: 3,
        image_url: "https://x/".to_string(),
        size_bytes: 1,
        sha256_hash: vec![],
        p256_signature: vec![],
    });
    ui::on_long_press(&mut d, Button::Down, 5, &mut fx);
    assert!(matches!(fx.list[0], Effect::OtaCancel));
    assert!(matches!(fx.list[1], Effect::OtaSignal(OtaEvent::StartUpdate(_))));
}

#[test]
fn combined_presses() {
    let all = ButtonsPressedState { up: true, down: true, select: true };
    let outer = ButtonsPressedState { up: true, down: true, select: false };
    let mut d = device();
    let mut fx = Effects::new();
    assert_eq!(ui::on_combined_press(&mut d, all, &product(), &mut fx), FollowUp::Nothing);
    assert!(d.session.test_mode_active);
    assert_eq!(
        ui::on_combined_press(&mut d, all, &product(), &mut fx),
        FollowUp::ShowDemoUnlessProvisioned
    );
    assert!(!d.session.test_mode_active);
    let mut fx = Effects::new();
    ui::follow_up(&mut d, FollowUp::ShowDemoUnlessProvisioned, &mut fx);
    assert!(matches!(
        fx.list[1],
        Effect::StartPixelsAnimation(LedPixelsAnimationEvent::DemoMode)
    ));
    d.persist.config.brightness_percent = 99;
    let mut fx = Effects::new();
    ui::on_button_press(&mut d, ButtonPress::CombinedLong(outer), 5, &product(), &mut fx);
    assert!(d.persist.is_same(&defaults()));
    assert_eq!(
        shown(&fx),
        "[StorePersistSettings, OtaCancel, OtaSignal(BootFromFactory)]"
    );
    let one = ButtonsPressedState { up: true, down: false, select: true };
    let mut fx = Effects::new();
    ui::on_combined_press(&mut d, one, &product(), &mut fx);
    assert!(fx.list.is_empty());
}

// Boot

#[test]
fn boot_without_credentials() {
    let mut d = device();
    let mut fx = Effects::new();
    assert!(!boot::start_network(&mut d.persist, &mut d.transit, &mut d.leds, &mut fx));
    assert!(matches!(
        fx.list[1],
        Effect::StartStatusAnimation(LedStatusAnimationEvent::Constant(RGB8 { r: 0, g: 0, b: 0 }))
    ));
    assert!(matches!(fx.list[3], Effect::WifiSignal(WifiNetEvent::StartProvisioning)));
    let mut fx = Effects::new();
    assert!(boot::play_startup(&d.transit, &mut d.leds, &mut fx));
    match &fx.list[1] {
        Effect::StartPixelsAnimation(LedPixelsAnimationEvent::PlayStartup(c)) => {
            assert_eq!(*c, LedColor::Amber.as_rgb8())
        }
        other => panic!("{:?}", other),
    }
    let mut fx = Effects::new();
    boot::finish_startup(true, false, &mut d.leds, &mut fx);
    assert!(matches!(
        fx.list[1],
        Effect::StartPixelsAnimation(LedPixelsAnimationEvent::DemoMode)
    ));
    assert!(matches!(fx.list[3], Effect::OtaSignal(OtaEvent::InitBootPartition)));
}

#[test]
fn boot_with_credentials() {
    let mut d = device();
    d.persist.wifi_ssid = Some("net".to_string());
    d.persist.wifi_password = Some("pw".to_string());
    d.persist.access_token = Some("token".to_string());
    let mut fx = Effects::new();
    assert!(boot::start_network(&mut d.persist, &mut d.transit, &mut d.leds, &mut fx));
    assert!(matches!(fx.list[2], Effect::WifiSignal(WifiNetEvent::ConnectToAp)));
    assert_eq!(d.persist.wifi_ssid.as_deref(), Some("net"));
    let mut fx = Effects::new();
    boot::finish_startup(true, true, &mut d.leds, &mut fx);
    assert_eq!(shown(&fx), "[OtaCancel, OtaSignal(InitBootPartition)]");
}

#[test]
fn errors_of_a_connection_differ() {
    assert_ne!(WsClientError::WsError { invalid: true }, WsClientError::WsError { invalid: false });
}
