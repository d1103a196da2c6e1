//! The connection to the server.

use ledtransit::config::{
    Config, FirmwareVersion, HardwareVersion, LocGeoKdNode, LocPixEdge, LocPixNode, Product,
    ProductConfig,
};
use ledtransit::device::Device;
use ledtransit::display::animations::LedStatusAnimationEvent;
use ledtransit::display::leds::LedColor;
use ledtransit::effects::{Effect, Effects};
use ledtransit::net::ws_client::{
    self, AfterRun, FrameKind, FrameStep, Measurements, Outgoing, WsClientError, WsClientNotify,
};
use ledtransit::proto::{
    ClientMessage, DeviceCommand, DeviceError, DeviceErrorType, DeviceStatus, DeviceUpdate, Echo,
    Line, Payload, ServerInfo, TransitData,
};
use ledtransit::store::app_settings::persist;
use ledtransit::store::app_settings::session::SessionSettings;
use ledtransit::store::ota::OtaEvent;
use ledtransit::trace::{ErrorLog, Report};
use ledtransit::util::{self, RGB8};

const EDGES: [LocPixEdge; 0] = [];
const NODES: [LocPixNode; 1] = [LocPixNode { lat_e7: 0, lng_e7: 0, modes: 1, edges: &EDGES }];
const TREE: [LocGeoKdNode; 1] = [LocGeoKdNode { left: None, right: None, loc: 0 }];

fn product() -> ProductConfig {
    ProductConfig {
        data_feed: "feed",
        pixel_count: 2,
        pixel_indices_special: &[],
        loc_geo_kd_tree: &TREE,
        loc_pix_nodes: &NODES,
        min_delay_minutes: 0,
        max_delay_minutes: 10,
        min_speed_kmph: 0,
        max_speed_kmph: 100,
        cos_lat_q15: 1,
    }
}

fn config() -> Config {
    Config {
        product: Product::Bln1_2512_1,
        hw_version: HardwareVersion { major: 2512, minor: 1 },
        fw_version: FirmwareVersion { major: 1, minor: 2, patch: 3, beta: true },
        cfg: product(),
    }
}

fn device() -> Device {
    Device {
        persist: persist::persist_settings_default(&product()),
        session: SessionSettings::default(),
        transit: None,
        leds: vec![RGB8 { r: 1, g: 1, b: 1 }; 3],
    }
}

fn update() -> DeviceUpdate {
    DeviceUpdate {
        firmware_version_major: 2,
        firmware_version_minor: 0,
        firmware_version_patch: 0,
        image_url: "https://x/".to_string(),
        size_bytes: 1,
        sha256_hash: vec![],
        p256_signature: vec![],
    }
}

fn measurements() -> Measurements {
    Measurements {
        uptime_seconds: 11,
        wifi_rssi_dbm: Some(-60),
        current_estimate_milliamps: 300,
        heap_size_bytes: 1000,
        heap_max_used_bytes: 900,
        heap_current_used_bytes: 500,
    }
}

fn handle(d: &mut Device, payload: Payload) -> Effects {
    let mut fx = Effects::new();
    ws_client::handle_proto_message(d, payload, 100, 50, 60_000, &product(), &mut fx);
    fx
}

fn shown(fx: &Effects) -> String {
    format!("{:?}", fx.list)
}

#[test]
fn server_tells_the_time() {
    let mut d = device();
    handle(
        &mut d,
        Payload::ServerInfo(ServerInfo {
            unix_timestamp: 1000,
            local_time_of_day_seconds: 500,
            local_weekday_number: 3,
            local_sunrise_time_of_day_seconds: 1,
            local_sunset_time_of_day_seconds: 2,
        }),
    );
    assert!(d.session.is_time_synced);
    assert_eq!(d.session.unix_epoch_offset_secs, 950);
    assert_eq!(d.session.local_weekday_number, 3);
}

#[test]
fn server_switches_the_light() {
    let mut d = device();
    d.session.light_on = true;
    let status = |on| {
        Payload::Status(DeviceStatus {
            is_light_on: on,
            is_updating_firmware: false,
            has_update_failed: false,
            wifi_ssid: String::new(),
        })
    };
    let fx = handle(&mut d, status(false));
    assert!(!d.session.light_on);
    assert_eq!(d.session.light_on_override, Some(false));
    assert_eq!(shown(&fx), "[Notify(Telemetry)]");
    let fx = handle(&mut d, status(false));
    assert!(fx.list.is_empty());
    assert!(!ws_client::build_status(&d).is_light_on);
}

#[test]
fn same_configuration_is_quiet() {
    let mut d = device();
    let same = d.persist.config.duplicate();
    assert!(handle(&mut d, Payload::Config(same)).list.is_empty());
    let mut other = d.persist.config.duplicate();
    other.brightness_percent = 77;
    other.auto_firmware_update_enabled = false;
    d.session.auto_update_scheduled_unix_timestamp = Some(5);
    let fx = handle(&mut d, Payload::Config(other));
    assert_eq!(shown(&fx), "[OtaCancel, StorePersistSettings, RenderNow]");
    assert_eq!(d.persist.config.brightness_percent, 77);
}

#[test]
fn commands_of_the_server() {
    let mut d = device();
    let fx = handle(&mut d, Payload::Command(DeviceCommand::Reboot));
    assert_eq!(d.leds[1], util::black());
    assert!(matches!(fx.list.last(), Some(Effect::QuitWs(Err(WsClientError::Reboot)))));
    let fx = handle(&mut d, Payload::Command(DeviceCommand::Reprovision));
    assert_eq!(shown(&fx), "[QuitWs(Err(RestartProvisioning))]");
    let fx = handle(&mut d, Payload::Command(DeviceCommand::Reconnect));
    assert_eq!(shown(&fx), "[QuitWs(Err(Reconnect))]");
    let fx = handle(&mut d, Payload::Command(DeviceCommand::TestLeds));
    assert!(d.session.test_mode_active);
    assert_eq!(fx.list.len(), 2);
    let fx = handle(&mut d, Payload::Command(DeviceCommand::Identify));
    assert_eq!(fx.list.len(), 2);
    let fx = handle(&mut d, Payload::Command(DeviceCommand::StartFirmwareUpdate));
    assert_eq!(shown(&fx), "[Report(UpdateCommandWithoutUpdate)]");
    let fx = handle(&mut d, Payload::Command(DeviceCommand::Unknown(99)));
    assert!(fx.list.is_empty());
    d.persist.config.brightness_percent = 99;
    d.persist.wifi_ssid = Some("net".to_string());
    let fx = handle(&mut d, Payload::Command(DeviceCommand::ResetConfigDefaults));
    assert_eq!(d.persist.config.brightness_percent, 25);
    assert_eq!(d.persist.wifi_ssid.as_deref(), Some("net"));
    assert_eq!(shown(&fx), "[StorePersistSettings, Notify(Config), Notify(Status)]");
    let fx = handle(&mut d, Payload::Command(DeviceCommand::FactoryReset));
    assert_eq!(d.persist.wifi_ssid, None);
    assert_eq!(
        shown(&fx),
        "[StorePersistSettings, Notify(Config), QuitWs(Err(FactoryReset))]"
    );
}

#[test]
fn updates_are_offered() {
    let mut d = device();
    let fx = handle(&mut d, Payload::DeviceUpdate(update()));
    assert!(matches!(fx.list[1], Effect::OtaSignal(OtaEvent::ScheduleUpdate(_, 300))));
    assert!(d.session.firmware_update_available.is_some());
    d.persist.config.auto_firmware_update_enabled = false;
    assert!(handle(&mut d, Payload::DeviceUpdate(update())).list.is_empty());
    let fx = handle(&mut d, Payload::Command(DeviceCommand::StartFirmwareUpdate));
    assert!(matches!(fx.list[1], Effect::OtaSignal(OtaEvent::StartUpdate(_))));
}

#[test]
fn echo_comes_back() {
    let mut d = device();
    let fx = handle(&mut d, Payload::Echo(Echo { data: vec![1, 2] }));
    match &fx.list[0] {
        Effect::Notify(WsClientNotify::Echo(e)) => assert_eq!(e.data, vec![1, 2]),
        other => panic!("{:?}", other),
    }
    assert!(matches!(fx.list[1], Effect::Notify(WsClientNotify::Telemetry)));
}

#[test]
fn transit_data_is_taken() {
    let mut d = device();
    let data = TransitData {
        lines: vec![Line { name: "U1".to_string(), color_rgb8: 1 }],
        sourced_at_unix_timestamp: 40,
        ..TransitData::default()
    };
    handle(&mut d, Payload::TransitData(data));
    assert_eq!(d.transit.as_ref().unwrap().stats.sourced_at_timestamp, 40);
    assert_eq!(d.transit.as_ref().unwrap().stats.received_at_timestamp, 50);
    assert_eq!(d.persist.config.line_configs[0].line_name, "U1");
}

#[test]
fn payloads_that_a_server_does_not_send() {
    let mut d = device();
    let info = ws_client::build_info(&config(), &d.session);
    let fx = handle(&mut d, Payload::DeviceInfo(info));
    assert_eq!(shown(&fx), "[Report(WsPayloadUnhandled)]");
}

#[test]
fn frames_of_the_server() {
    let mut d = device();
    let mut fx = Effects::new();
    let binary = FrameKind::Binary { fragmented: false };
    assert_eq!(ws_client::on_frame(&mut d, binary, &[8, 1, 0x12], &mut fx), FrameStep::Decode);
    assert_eq!(ws_client::on_frame(&mut d, binary, &[8, 1, 0x52], &mut fx), FrameStep::Decode);
    d.session.test_mode_active = true;
    assert_eq!(ws_client::on_frame(&mut d, binary, &[8, 1, 0x52], &mut fx), FrameStep::Next);
    d.session.test_mode_active = false;
    d.session.updating_firmware = true;
    assert_eq!(ws_client::on_frame(&mut d, binary, &[8, 1, 0x52], &mut fx), FrameStep::Next);
    assert_eq!(ws_client::on_frame(&mut d, binary, &[], &mut fx), FrameStep::Decode);
    assert!(fx.list.is_empty());
    assert_eq!(
        ws_client::on_frame(&mut d, FrameKind::Close, &[], &mut fx),
        FrameStep::End(Ok(()))
    );
    assert_eq!(ws_client::on_frame(&mut d, FrameKind::Ping, &[], &mut fx), FrameStep::Next);
    assert_eq!(
        ws_client::on_frame(&mut d, FrameKind::Other, &[], &mut fx),
        FrameStep::End(Err(WsClientError::DataError))
    );
    assert_eq!(
        shown(&fx),
        "[Notify(Pong), Notify(Telemetry), Report(WsFrameUnsupported)]"
    );
}

#[test]
fn messages_are_checked() {
    let mut d = device();
    let mut fx = Effects::new();
    let mut decode = |message, fragmented, fx: &mut Effects| {
        ws_client::on_decoded_frame(&mut d, message, 10, fragmented, 50, 60, &product(), fx)
    };
    assert_eq!(decode(None, false, &mut fx), Err(WsClientError::DataError));
    let echo = || Some(Payload::Echo(Echo { data: vec![] }));
    assert_eq!(
        decode(Some(ClientMessage { version: 2, payload: echo() }), false, &mut fx),
        Err(WsClientError::DataError)
    );
    assert!(matches!(
        fx.list[0],
        Effect::Report(Report::WsVersionMismatch { version: 2 })
    ));
    assert_eq!(
        decode(Some(ClientMessage { version: 1, payload: None }), false, &mut fx),
        Err(WsClientError::DataError)
    );
    assert_eq!(fx.list.len(), 1);
    assert_eq!(decode(Some(ClientMessage { version: 1, payload: echo() }), false, &mut fx), Ok(()));
    assert_eq!(
        decode(Some(ClientMessage { version: 1, payload: echo() }), true, &mut fx),
        Err(WsClientError::DataError)
    );
    assert!(matches!(fx.list.last(), Some(Effect::Report(Report::WsFrameNotFinal))));
}

#[test]
fn device_tells_the_server() {
    let mut d = device();
    d.persist.wifi_ssid = Some("net".to_string());
    let mut log = ErrorLog::new();
    let mut send = |notify, log: &mut ErrorLog| {
        ws_client::build_outgoing(notify, &d, &config(), log, 77, measurements())
    };
    match send(WsClientNotify::Status, &mut log) {
        Some(Outgoing::Message(m)) => {
            assert_eq!(m.version, 1);
            match m.payload {
                Some(Payload::Status(s)) => assert_eq!(s.wifi_ssid, "net"),
                other => panic!("{:?}", other),
            }
        }
        other => panic!("{:?}", other),
    }
    match send(WsClientNotify::Telemetry, &mut log) {
        Some(Outgoing::Message(m)) => match m.payload {
            Some(Payload::Telemetry(t)) => {
                assert_eq!(t.uptime_seconds, 11);
                assert_eq!(t.wifi_rssi_dbm, -60);
                assert_eq!(t.current_estimate_milliamps, 300);
                assert_eq!(t.brightness_percent, 25);
                assert_eq!(t.num_vehicles_available, 0);
            }
            other => panic!("{:?}", other),
        },
        other => panic!("{:?}", other),
    }
    match send(WsClientNotify::Info, &mut log) {
        Some(Outgoing::Message(m)) => match m.payload {
            Some(Payload::DeviceInfo(i)) => {
                assert_eq!(
                    (i.firmware_version_major, i.firmware_version_minor, i.firmware_version_patch),
                    (1, 2, 3)
                );
                assert!(i.is_beta_firmware);
            }
            other => panic!("{:?}", other),
        },
        other => panic!("{:?}", other),
    }
    assert!(matches!(send(WsClientNotify::Pong, &mut log), Some(Outgoing::Pong)));
    assert!(send(WsClientNotify::Errors, &mut log).is_none());
    log.add_error(DeviceError {
        error_type: DeviceErrorType::Error,
        instant_milliseconds: 1,
        message: "m".to_string(),
        file_name: "f".to_string(),
        line_number: 1,
        column_number: 1,
        unix_timestamp: 0,
    });
    match send(WsClientNotify::Errors, &mut log) {
        Some(Outgoing::Message(m)) => match m.payload {
            Some(Payload::Errors(e)) => {
                assert_eq!(e.errors.len(), 1);
                assert_eq!(e.errors[0].unix_timestamp, 77);
            }
            other => panic!("{:?}", other),
        },
        other => panic!("{:?}", other),
    }
    assert!(log.get_errors().is_empty());
    assert!(matches!(
        send(WsClientNotify::Config, &mut log),
        Some(Outgoing::Message(ClientMessage { payload: Some(Payload::Config(_)), .. }))
    ));
}

#[test]
fn messages_are_queued() {
    let mut fx = Effects::new();
    ws_client::send_status(&mut fx);
    ws_client::send_config(&mut fx);
    ws_client::send_telemetry(&mut fx);
    ws_client::send_errors(&mut fx);
    ws_client::send_info(&mut fx);
    ws_client::send_pong(&mut fx);
    ws_client::quit(Ok(()), &mut fx);
    assert_eq!(
        shown(&fx),
        "[Notify(Status), Notify(Config), Notify(Telemetry), Notify(Errors), Notify(Info), \
         Notify(Pong), QuitWs(Ok(()))]"
    );
}

#[test]
fn provisioning_token_that_is_refused() {
    let mut d = device();
    d.persist.prov_token = Some("t".to_string());
    let mut fx = Effects::new();
    assert_eq!(
        ws_client::on_provision_result(Err(WsClientError::Timeout), &mut d.persist, &mut fx),
        Err(WsClientError::Timeout)
    );
    assert!(d.persist.prov_token.is_some());
    assert_eq!(
        ws_client::on_provision_result(Err(WsClientError::AuthFailed), &mut d.persist, &mut fx),
        Err(WsClientError::RestartProvisioning)
    );
    assert!(d.persist.prov_token.is_none());
    assert_eq!(ws_client::on_provision_result(Ok(()), &mut d.persist, &mut fx), Ok(()));
    assert!(ws_client::access_token(&d.persist).is_err());
    d.persist.access_token = Some("a".to_string());
    assert_eq!(ws_client::access_token(&d.persist), Ok("a".to_string()));
}

#[test]
fn end_of_a_connection() {
    let mut d = device();
    let mut end = |result| {
        let mut fx = Effects::new();
        let after = ws_client::on_run_ended(&mut d, result, &mut fx);
        (after, shown(&fx))
    };
    assert_eq!(end(Ok(())), (AfterRun::Wait, "[]".to_string()));
    assert_eq!(end(Err(WsClientError::Reboot)).0, AfterRun::Restart);
    assert_eq!(end(Err(WsClientError::Reconnect)).0, AfterRun::Reconnect);
    assert_eq!(end(Err(WsClientError::Timeout)), (AfterRun::Wait, "[]".to_string()));
    assert_eq!(
        end(Err(WsClientError::WsError { invalid: true })),
        (AfterRun::Wait, "[]".to_string())
    );
    assert_eq!(end(Err(WsClientError::RestartProvisioning)).0, AfterRun::WaitForProvisioning);
    assert_eq!(
        end(Err(WsClientError::FactoryReset)),
        (AfterRun::Wait, "[OtaCancel, OtaSignal(BootFromFactory)]".to_string())
    );
    assert!(end(Err(WsClientError::AuthFailed)).1.starts_with("[Report(WsAuthFailed)"));
    assert!(end(Err(WsClientError::DnsError)).1.starts_with("[Report(WsConnectionFailed"));
}

#[test]
fn status_while_connecting() {
    let mut fx = Effects::new();
    let mut session = SessionSettings::default();
    ws_client::show_connecting(&session, &mut fx);
    assert_eq!(fx.list.len(), 2);
    session.updating_firmware = true;
    let mut fx = Effects::new();
    ws_client::show_connecting(&session, &mut fx);
    match &fx.list[1] {
        Effect::StartStatusAnimation(LedStatusAnimationEvent::Blink(c, 500)) => {
            assert_eq!(*c, LedColor::Pink.as_rgb8())
        }
        other => panic!("{:?}", other),
    }
}
