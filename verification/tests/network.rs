//! Provisioning, authentication and firmware updates.

use ledtransit::config::{
    Config, FirmwareVersion, HardwareVersion, Product, ProductConfig,
};
use ledtransit::effects::{Effect, Effects};
use ledtransit::net::auth_client;
use ledtransit::net::prov_server::{
    self, AccessPoint, Action, ConnectWifiRequestApi, Content, Method, StaticFile,
};
use ledtransit::net::wifi_net::{self, WifiAction, WifiNetEvent};
use ledtransit::net::ws_client::{WsClientError, WsClientNotify};
use ledtransit::proto::DeviceUpdate;
use ledtransit::store::app_settings::persist::{self, PersistSettings};
use ledtransit::store::app_settings::session::SessionSettings;
use ledtransit::store::firmware_signature::Verdict;
use ledtransit::store::ota::{self, AppPartition, ImageState, OtaError, OtaEvent};
use ledtransit::trace::Report;
use ledtransit::util;

fn product() -> ProductConfig {
    ProductConfig {
        data_feed: "feed",
        pixel_count: 2,
        pixel_indices_special: &[],
        loc_geo_kd_tree: &[],
        loc_pix_nodes: &[],
        min_delay_minutes: 0,
        max_delay_minutes: 10,
        min_speed_kmph: 0,
        max_speed_kmph: 100,
        cos_lat_q15: 1,
    }
}

fn settings() -> PersistSettings {
    persist::persist_settings_default(&product())
}

fn shown(fx: &Effects) -> String {
    format!("{:?}", fx.list)
}

fn version(beta: bool) -> FirmwareVersion {
    FirmwareVersion { major: 1, minor: 2, patch: 3, beta }
}

fn update() -> DeviceUpdate {
    DeviceUpdate {
        firmware_version_major: 1,
        firmware_version_minor: 3,
        firmware_version_patch: 0,
        image_url: "https://cdn.example.com/fw/image.bin".to_string(),
        size_bytes: 1000,
        sha256_hash: vec![7; 32],
        p256_signature: vec![1; 64],
    }
}

// The wireless network

#[test]
fn provisioning_forgets_credentials() {
    let mut s = settings();
    s.wifi_ssid = Some("net".to_string());
    s.access_token = Some("token".to_string());
    let mut store = None;
    let mut leds = vec![util::black(); 3];
    let mut fx = Effects::new();
    wifi_net::start_provisioning(&mut s, &mut store, &mut leds, &mut fx);
    assert_eq!(s.wifi_ssid, None);
    assert_eq!(s.access_token, None);
    assert_eq!(
        shown(&fx),
        "[StorePersistSettings, QuitWs(Ok(())), WifiSignal(StartProvisioning), \
         CancelPixelsAnimation, StartPixelsAnimation(FadeOut)]"
    );
}

#[test]
fn network_events() {
    let mut fx = Effects::new();
    assert_eq!(
        wifi_net::on_wifi_event(WifiNetEvent::StartProvisioning, true, &mut fx),
        WifiAction::OpenAccessPoint { disconnect: true }
    );
    assert_eq!(
        wifi_net::on_wifi_event(WifiNetEvent::FinishProvisioning, false, &mut fx),
        WifiAction::UseStoredCredentials
    );
    assert_eq!(
        wifi_net::on_wifi_event(WifiNetEvent::ConnectToAp, false, &mut fx),
        WifiAction::Connect
    );
    assert_eq!(
        wifi_net::on_wifi_event(WifiNetEvent::ConnectToAp, true, &mut fx),
        WifiAction::Nothing
    );
    let mut fx = Effects::new();
    assert!(!wifi_net::on_connect_result(true, &mut fx));
    assert!(fx.list.is_empty());
    assert!(wifi_net::on_connect_result(false, &mut fx));
    assert_eq!(fx.list.len(), 2);
    let mut fx = Effects::new();
    wifi_net::on_retry_delay_over(true, &mut fx);
    assert!(fx.list.is_empty());
    wifi_net::on_retry_delay_over(false, &mut fx);
    assert!(matches!(fx.list[0], Effect::WifiSignal(WifiNetEvent::ConnectToAp)));
}

#[test]
fn device_keeps_connected_once_set_up() {
    let mut s = settings();
    let mut fx = Effects::new();
    wifi_net::keep_connected(&s, false, &mut fx);
    assert!(fx.list.is_empty());
    s.wifi_ssid = Some("net".to_string());
    s.wifi_password = Some("pw".to_string());
    s.access_token = Some("token".to_string());
    wifi_net::keep_connected(&s, true, &mut fx);
    assert!(fx.list.is_empty());
    wifi_net::keep_connected(&s, false, &mut fx);
    assert_eq!(fx.list.len(), 1);
}

#[test]
fn name_of_the_device() {
    assert_eq!(
        wifi_net::device_name(&[0x10, 0x20, 0x30, 0xAB, 0x0C, 0xFF]),
        "LEDTransit-AB0CFF"
    );
}

// Authentication

#[test]
fn device_says_what_it_is() {
    let config = Config {
        product: Product::Bln1_2512_1,
        hw_version: HardwareVersion { major: 2512, minor: 1 },
        fw_version: version(false),
        cfg: product(),
    };
    let body = auth_client::auth_body(&config, &[0x0F; 16]);
    assert_eq!(body.hardware_id, "0f".repeat(16));
    assert_eq!(body.product_ident, "bln1-2512-1");
    assert_eq!(body.model, "Berlin Rapid Transit Lightmap");
    assert_eq!((body.hw_major, body.hw_minor), (2512, 1));
    assert_eq!((body.fw_major, body.fw_minor, body.fw_patch), (1, 2, 3));
    assert_eq!(body.feed_ident, "feed");
    assert_eq!(
        auth_client::provision_headers("host", "tok"),
        vec![
            ("Host".to_string(), "host".to_string()),
            ("Provisioning-Token".to_string(), "tok".to_string())
        ]
    );
    assert_eq!(auth_client::check_auth_status(200), Ok(()));
    assert_eq!(auth_client::check_auth_status(401), Err(WsClientError::AuthFailed));
    assert_eq!(auth_client::check_upgrade(true), Ok(()));
    assert_eq!(auth_client::check_upgrade(false), Err(WsClientError::AuthFailed));
}

#[test]
fn servers_accept_the_connection() {
    // The key that goes with this nonce is "dGhlIHNhbXBsZSBub25jZQ==".
    let nonce = *b"the sample nonce";
    let headers = |accept: &str| {
        vec![
            ("upgrade".to_string(), "WebSocket".to_string()),
            ("Connection".to_string(), "Upgrade".to_string()),
            ("Sec-WebSocket-Accept".to_string(), accept.to_string()),
        ]
    };
    let good = headers("s3pPLMBiTxaQ9kYGzzhZRbK+xOo=");
    assert_eq!(auth_client::check_upgrade_response(101, &good, &nonce), Ok(()));
    let failed = Err(WsClientError::AuthFailed);
    assert_eq!(auth_client::check_upgrade_response(200, &good, &nonce), failed);
    assert_eq!(auth_client::check_upgrade_response(101, &good, &[0; 16]), failed);
    assert_eq!(auth_client::check_upgrade_response(101, &headers("other"), &nonce), failed);
    assert_eq!(auth_client::check_upgrade_response(101, &vec![], &nonce), failed);
}

#[test]
fn access_token_takes_the_place_of_the_provisioning_token() {
    let mut s = settings();
    s.prov_token = Some("prov".to_string());
    let mut fx = Effects::new();
    assert_eq!(
        auth_client::store_access_token(None, &mut s, &mut fx),
        Err(WsClientError::DataError)
    );
    let long = "x".repeat(65);
    assert_eq!(
        auth_client::store_access_token(Some(&long), &mut s, &mut fx),
        Err(WsClientError::DataError)
    );
    assert!(fx.list.is_empty());
    assert_eq!(auth_client::store_access_token(Some("token"), &mut s, &mut fx), Ok(()));
    assert_eq!(s.prov_token, None);
    assert_eq!(s.access_token.as_deref(), Some("token"));
    assert_eq!(shown(&fx), "[StorePersistSettings]");
    assert_eq!(auth_client::store_access_token(Some("token"), &mut s, &mut fx), Ok(()));
    assert_eq!(fx.list.len(), 1);
}

#[test]
fn device_is_set_up() {
    let mut s = settings();
    let mut fx = Effects::new();
    prov_server::end_connect(true, request(), Some("prov".to_string()), &mut s, &mut fx);
    assert!(!s.has_credentials_and_is_authenticated());
    auth_client::store_access_token(Some("token"), &mut s, &mut fx).unwrap();
    assert!(s.has_credentials_and_is_authenticated());
    assert_eq!(s.prov_token, None);
    assert_eq!(s.wifi_ssid.as_deref(), Some("net"));
    let (mut store, mut leds) = (None, vec![util::black(); 2]);
    wifi_net::start_provisioning(&mut s, &mut store, &mut leds, &mut fx);
    assert!(!s.has_credentials_and_is_authenticated());
}

#[test]
fn headers_of_a_connection() {
    let nonce: [u8; 16] = *b"the sample nonce";
    let headers = auth_client::websocket_headers("example.com", "token", &nonce);
    let names: Vec<&str> = headers.iter().map(|h| h.0.as_str()).collect();
    assert_eq!(
        names,
        vec![
            "Host",
            "Origin",
            "Content-Length",
            "Connection",
            "Upgrade",
            "Sec-WebSocket-Version",
            "Sec-WebSocket-Key",
            "Access-Token"
        ]
    );
    assert_eq!(headers[0].1, "example.com");
    assert_eq!(headers[1].1, "ledtransit-client");
    assert_eq!(headers[6].1, "dGhlIHNhbXBsZSBub25jZQ==");
    assert_eq!(headers[7].1, "token");
}

// The provisioning server

#[test]
fn targets_are_taken_apart() {
    let t = prov_server::parse_target("/setup-wifi?tok=a=b&lang=de&x&=&tok=c?tok=d");
    assert_eq!(t.path, "/setup-wifi");
    assert_eq!(t.query_pairs.len(), 4);
    assert_eq!(t.query_pairs[0], ("tok".to_string(), "a=b".to_string()));
    assert_eq!(t.query_pairs[2], ("".to_string(), "".to_string()));
    assert_eq!(prov_server::find_token(&t.query_pairs).as_deref(), Some("a=b"));
    assert_eq!(prov_server::find_value(&t.query_pairs, "lang").as_deref(), Some("de"));
    assert_eq!(prov_server::find_value(&t.query_pairs, "none"), None);
    let t = prov_server::parse_target("/plain");
    assert_eq!(t.path, "/plain");
    assert!(t.query_pairs.is_empty());
    let t = prov_server::parse_target("");
    assert_eq!(t.path, "");
    let t = prov_server::parse_target(&format!("/?tok={}", "x".repeat(65)));
    assert_eq!(prov_server::find_token(&t.query_pairs).as_deref(), Some(""));
    let t = prov_server::parse_target(&format!("/?tok={}", "x".repeat(64)));
    assert_eq!(prov_server::find_token(&t.query_pairs).unwrap().len(), 64);
}

#[test]
fn files_in_every_language() {
    let get = prov_server::get_static_file_with_locale;
    assert_eq!(get("/setup-wifi", None), Some(StaticFile::SetupWifiEn));
    assert_eq!(get("/setup-wifi", Some("de")), Some(StaticFile::SetupWifiDe));
    assert_eq!(get("/setup-wifi", Some("fr")), Some(StaticFile::SetupWifiEn));
    assert_eq!(get("/styles.css", Some("de")), Some(StaticFile::Styles));
    assert_eq!(get("/favicon.ico", None), Some(StaticFile::Favicon));
    assert_eq!(get("/background.webp", None), Some(StaticFile::Background));
    assert_eq!(get("/nothing", Some("de")), None);
    assert_eq!(StaticFile::Favicon.mime_type(), "image/x-icon");
}

#[test]
fn requests_are_routed() {
    let act = |method, target: &str| prov_server::handle(method, &prov_server::parse_target(target));
    match act(Method::Get, "/setup-wifi?lang=de") {
        Action::Respond(r) => {
            assert_eq!(r.status_code, 200);
            assert_eq!(r.content, Content::File(StaticFile::SetupWifiDe));
            assert_eq!(r.mime_type(), Some("text/html"));
            assert_eq!(r.status_message(), "OK");
        }
        other => panic!("{:?}", other),
    }
    match act(Method::Head, "/styles.css") {
        Action::Respond(r) => {
            assert_eq!(r.content, Content::Empty);
            assert_eq!(r.mime_type(), Some("text/css"));
        }
        other => panic!("{:?}", other),
    }
    assert_eq!(act(Method::Get, "/nothing"), Action::Ignore);
    assert_eq!(act(Method::Post, "/api/identify"), Action::Identify);
    assert_eq!(act(Method::Post, "/api/scan-wifi"), Action::Scan);
    assert_eq!(act(Method::Post, "/api/connect-wifi?tok=x"), Action::Connect);
    match act(Method::Post, "/setup-wifi") {
        Action::Respond(r) => {
            assert_eq!(r.status_code, 404);
            assert_eq!(r.status_message(), "Not Found");
            assert_eq!(r.mime_type(), None);
        }
        other => panic!("{:?}", other),
    }
    match act(Method::Other, "/setup-wifi") {
        Action::Respond(r) => assert_eq!(r.status_message(), "Method Not Allowed"),
        other => panic!("{:?}", other),
    }
}

#[test]
fn headers_of_a_response() {
    assert_eq!(
        prov_server::response_headers(1370, Some("text/css")),
        vec![
            ("Content-Length".to_string(), "1370".to_string()),
            ("Content-Type".to_string(), "text/css".to_string())
        ]
    );
    assert_eq!(
        prov_server::response_headers(0, None),
        vec![("Content-Length".to_string(), "0".to_string())]
    );
}

fn ap(ssid: &str, signal_strength: i8, is_open: Option<bool>) -> AccessPoint {
    AccessPoint { ssid: ssid.to_string(), signal_strength, is_open }
}

#[test]
fn networks_by_signal() {
    let list = vec![
        ap("a", -70, Some(true)),
        ap("b", -40, Some(false)),
        ap("c", -70, None),
        ap(&"x".repeat(33), -50, None),
        ap("d", -40, None),
    ];
    let r = prov_server::list_networks(&list);
    let names: Vec<&str> = r.iter().map(|n| n.ssid.as_str()).collect();
    assert_eq!(names, vec!["b", "d", "", "a", "c"]);
    let open: Vec<u8> = r.iter().map(|n| n.open).collect();
    assert_eq!(open, vec![0, 0, 0, 1, 0]);
    let many: Vec<AccessPoint> = (0..20).map(|i| ap("n", -(i as i8), None)).collect();
    let r = prov_server::list_networks(&many);
    assert_eq!(r.len(), 16);
    assert_eq!((r[0].rssi, r[15].rssi), (0, -15));
    assert_eq!(prov_server::scan_response(true).mime_type(), Some("application/json"));
    assert_eq!(prov_server::scan_response(false).status_code, 500);
}

#[test]
fn identifies_itself() {
    let mut leds = vec![util::black(); 2];
    let mut fx = Effects::new();
    let r = prov_server::handle_api_route_identify(&mut leds, &mut fx);
    assert_eq!(r.status_code, 200);
    assert_eq!(shown(&fx), "[CancelPixelsAnimation, StartPixelsAnimation(Identify)]");
}

fn request() -> ConnectWifiRequestApi {
    ConnectWifiRequestApi { ssid: "net".to_string(), password: "pw".to_string() }
}

#[test]
fn connecting_needs_a_token() {
    let r = prov_server::check_token(&None).unwrap();
    assert_eq!(r.status_code, 401);
    assert_eq!(r.status_message(), "Unauthorized");
    assert_eq!(r.content, Content::MissingToken);
    assert_eq!(prov_server::MISSING_TOKEN, "Unauthorized: Missing token");
    assert!(prov_server::check_token(&Some("t".to_string())).is_none());
}

#[test]
fn connecting_keeps_the_credentials() {
    let mut fx = Effects::new();
    assert_eq!(prov_server::begin_connect(true, &mut fx).unwrap().status_code, 200);
    assert_eq!(shown(&fx), "[WifiSignal(FinishProvisioning)]");
    let mut fx = Effects::new();
    assert!(prov_server::begin_connect(false, &mut fx).is_none());
    assert_eq!(fx.list.len(), 2);
    assert_eq!(prov_server::configure_failed().status_code, 500);
    let mut s = settings();
    let mut fx = Effects::new();
    let r = prov_server::end_connect(false, request(), Some("t".to_string()), &mut s, &mut fx);
    assert_eq!(r.status_message(), "Internal Server Error");
    assert_eq!(s.wifi_ssid, None);
    let mut fx = Effects::new();
    let r = prov_server::end_connect(true, request(), Some("t".to_string()), &mut s, &mut fx);
    assert_eq!(r.status_code, 200);
    assert_eq!(s.wifi_ssid.as_deref(), Some("net"));
    assert_eq!(s.wifi_password.as_deref(), Some("pw"));
    assert_eq!(s.prov_token.as_deref(), Some("t"));
    assert_eq!(shown(&fx), "[StorePersistSettings, WifiSignal(FinishProvisioning)]");
    let mut fx = Effects::new();
    prov_server::end_connect(true, request(), Some("t".to_string()), &mut s, &mut fx);
    assert_eq!(shown(&fx), "[WifiSignal(FinishProvisioning)]");
}

// Firmware updates

#[test]
fn updates_are_asked_for_one_at_a_time() {
    let mut session = SessionSettings::default();
    let mut fx = Effects::new();
    ota::start_firmware_update(&update(), &session, &mut fx);
    assert_eq!(fx.list.len(), 2);
    match &fx.list[1] {
        Effect::OtaSignal(OtaEvent::StartUpdate(u)) => {
            assert_eq!(u.image_url, update().image_url);
            assert_eq!(u.sha256_hash, vec![7; 32]);
        }
        other => panic!("{:?}", other),
    }
    session.updating_firmware = true;
    let mut fx = Effects::new();
    ota::start_firmware_update(&update(), &session, &mut fx);
    ota::schedule_firmware_update(&update(), 300, &session, &mut fx);
    assert!(fx.list.is_empty());
    session.updating_firmware = false;
    ota::schedule_firmware_update(&update(), 300, &session, &mut fx);
    assert!(matches!(fx.list[1], Effect::OtaSignal(OtaEvent::ScheduleUpdate(_, 300))));
    session.auto_update_scheduled_unix_timestamp = Some(1);
    let mut fx = Effects::new();
    ota::schedule_firmware_update(&update(), 300, &session, &mut fx);
    assert!(fx.list.is_empty());
    ota::boot_from_factory(&mut fx);
    ota::cancel(&mut fx);
    assert_eq!(shown(&fx), "[OtaCancel, OtaSignal(BootFromFactory), OtaCancel]");
}

#[test]
fn boot_partition() {
    let r = ota::init_current_partition(AppPartition::Ota0, Some(ImageState::New));
    assert!(r.mark_valid && !r.is_aborted && !r.is_factory);
    let r = ota::init_current_partition(AppPartition::Ota1, Some(ImageState::PendingVerify));
    assert!(r.mark_valid);
    let r = ota::init_current_partition(AppPartition::Factory, Some(ImageState::Aborted));
    assert!(!r.mark_valid && r.is_aborted && r.is_factory);
    let mut session = SessionSettings::default();
    let mut fx = Effects::new();
    ota::on_boot_partition(&r, &mut session, &mut fx);
    assert!(session.is_factory_firmware && session.is_rolled_back_firmware);
    assert_eq!(shown(&fx), "[StoreDeviceInfo]");
    let r = ota::init_current_partition(AppPartition::Factory, None);
    assert!(!r.mark_valid && !r.is_aborted && r.is_factory);
    assert!(!ota::set_factory_boot_partition(AppPartition::Factory));
    assert!(ota::set_factory_boot_partition(AppPartition::Ota1));
    let mut fx = Effects::new();
    ota::request_reboot(&mut fx);
    assert!(matches!(fx.list[0], Effect::QuitWs(Err(WsClientError::Reboot))));
}

#[test]
fn scheduled_updates() {
    let mut session = SessionSettings::default();
    session.unix_epoch_offset_secs = 1000;
    let mut fx = Effects::new();
    ota::begin_schedule(300, 50, &mut session, &mut fx);
    assert_eq!(session.auto_update_scheduled_unix_timestamp, Some(1350));
    assert!(matches!(fx.list[0], Effect::Notify(WsClientNotify::Telemetry)));
    ota::end_schedule(update(), false, &mut session, &mut fx);
    assert_eq!(session.auto_update_scheduled_unix_timestamp, Some(1350));
    assert!(matches!(fx.list[1], Effect::OtaSignal(OtaEvent::StartUpdate(_))));
    ota::end_schedule(update(), true, &mut session, &mut fx);
    assert_eq!(session.auto_update_scheduled_unix_timestamp, None);
    assert!(matches!(fx.list[2], Effect::Notify(WsClientNotify::Telemetry)));
}

#[test]
fn updates_that_may_start() {
    let mut session = SessionSettings::default();
    let mut fx = Effects::new();
    assert!(ota::begin_update(&update(), &version(false), &mut session, &mut fx));
    assert!(session.updating_firmware);
    assert_eq!(fx.list.len(), 4);
    let same = DeviceUpdate {
        firmware_version_minor: 2,
        firmware_version_patch: 3,
        ..update()
    };
    let mut session = SessionSettings::default();
    let mut fx = Effects::new();
    assert!(!ota::begin_update(&same, &version(false), &mut session, &mut fx));
    assert!(!session.updating_firmware);
    assert!(matches!(
        fx.list[0],
        Effect::Report(Report::UpdateToSameVersion { major: 1, minor: 2, patch: 3 })
    ));
    assert!(ota::begin_update(&same, &version(true), &mut session, &mut fx));
    let large = DeviceUpdate { size_bytes: 0x14F001, ..update() };
    let mut fx = Effects::new();
    assert!(!ota::begin_update(&large, &version(false), &mut session, &mut fx));
    assert!(matches!(fx.list[0], Effect::Report(Report::UpdateTooLarge { size_bytes: 0x14F001 })));
    let fits = DeviceUpdate { size_bytes: 0x14F000, ..update() };
    assert!(ota::begin_update(&fits, &version(false), &mut session, &mut fx));
}

#[test]
fn images_come_over_secure_connections() {
    assert_eq!(
        ota::image_source(&update()),
        Ok(("cdn.example.com".to_string(), "/fw/image.bin".to_string()))
    );
    for url in ["http://cdn.example.com/x", "nonsense", ""] {
        let u = DeviceUpdate { image_url: url.to_string(), ..update() };
        assert_eq!(ota::image_source(&u), Err(OtaError::UrlError));
    }
    assert_eq!(ota::check_image_url(None), Err(OtaError::UrlError));
    assert_eq!(ota::image_headers("h")[1], ("Connection".to_string(), "close".to_string()));
}

#[test]
fn responses_for_images() {
    let mut fx = Effects::new();
    assert_eq!(ota::check_image_response(200, Some("1370"), &mut fx), Ok(1370));
    assert_eq!(ota::check_image_response(200, Some("1372160"), &mut fx), Ok(0x14F000));
    assert!(fx.list.is_empty());
    assert_eq!(
        ota::check_image_response(404, Some("1370"), &mut fx),
        Err(OtaError::StatusCodeError(404))
    );
    assert_eq!(
        ota::check_image_response(200, None, &mut fx),
        Err(OtaError::HeaderMissingError)
    );
    assert_eq!(
        ota::check_image_response(200, Some("many"), &mut fx),
        Err(OtaError::HeaderMissingError)
    );
    assert_eq!(
        ota::check_image_response(200, Some("1372161"), &mut fx),
        Err(OtaError::PartitionError)
    );
    assert_eq!(fx.list.len(), 4);
    assert!(matches!(fx.list[0], Effect::Report(Report::ImageStatus { code: 404 })));
    assert!(matches!(fx.list[3], Effect::Report(Report::ImageTooLarge { length: 1372161 })));
}

#[test]
fn chunks_make_up_an_image() {
    for total in [0usize, 1, 4095, 4096, 4097, 0x14F000] {
        let mut read = 0;
        while let Some(n) = ota::next_chunk(total, read) {
            assert!(n > 0 && n <= 4096);
            assert!(ota::chunk_fits(read, ota::OTA_PARTITION_SIZE));
            read += n;
        }
        assert_eq!(read, total);
    }
    assert!(!ota::chunk_fits(0x14F000 - 4095, 0x14F000));
    assert!(!ota::chunk_fits(0, 4095));
}

#[test]
fn progress_of_an_update() {
    let mut session = SessionSettings::default();
    let mut fx = Effects::new();
    assert_eq!(ota::on_progress(0, 10, 0, &mut session, &mut fx), 0);
    assert!(fx.list.is_empty());
    assert_eq!(ota::on_progress(1, 10, 0, &mut session, &mut fx), 1);
    assert_eq!(session.update_progress_percent, 1);
    assert_eq!(session.update_speed_bytes_per_sec, 10);
    ota::on_downloaded(&mut session, &mut fx);
    assert_eq!(session.update_progress_percent, 100);
    assert_eq!(fx.list.len(), 2);
}

#[test]
fn image_in_flash_has_the_hash() {
    let mut fx = Effects::new();
    assert_eq!(ota::check_image_hash(&update(), &[7; 32], &mut fx), Ok(()));
    assert_eq!(
        ota::check_image_hash(&update(), &[8; 32], &mut fx),
        Err(OtaError::HashMismatchError)
    );
    let short = DeviceUpdate { sha256_hash: vec![7; 31], ..update() };
    assert_eq!(
        ota::check_image_hash(&short, &[7; 32], &mut fx),
        Err(OtaError::HashMismatchError)
    );
    assert_eq!(shown(&fx), "[Report(ImageHashMismatch), Report(ImageHashMismatch)]");
}

#[test]
fn signatures_decide() {
    let mut fx = Effects::new();
    assert_eq!(ota::check_signature(Verdict::Valid, &mut fx), Ok(()));
    assert_eq!(
        ota::check_signature(Verdict::Malformed, &mut fx),
        Err(OtaError::SignatureMalformedError)
    );
    assert!(fx.list.is_empty());
    assert_eq!(
        ota::check_signature(Verdict::Mismatch, &mut fx),
        Err(OtaError::SignatureVerificationError)
    );
    assert_eq!(shown(&fx), "[Report(SignatureInvalid)]");
}

#[test]
fn failures_of_updates() {
    let mut session = SessionSettings::default();
    session.updating_firmware = true;
    let mut fx = Effects::new();
    ota::on_download_failed(OtaError::Timeout, &mut session, &mut fx);
    assert!(!session.updating_firmware);
    assert!(session.update_has_failed);
    assert!(matches!(
        fx.list[0],
        Effect::Report(Report::UpdateFailed { cause: OtaError::Timeout })
    ));
    assert_eq!(fx.list.len(), 5);
    let mut fx = Effects::new();
    ota::on_client_error(OtaError::SignatureVerificationError, &mut fx);
    assert_eq!(fx.list.len(), 3);
}
