//! The tools around the firmware.

use ledtransit::config::{Config, FirmwareVersion, HardwareVersion, Product, ProductConfig};
use ledtransit::effects::Effects;
use ledtransit::proto::DeviceUpdate;
use ledtransit::store::app_settings::info::{self, DeviceInfo, FirmwareInfo};
use ledtransit::store::app_settings::session::SessionSettings;
use ledtransit::store::firmware_signature::{self, Verdict};
use ledtransit::store::ota::{self, OtaError, UpdateStep};
use ledtransit::tools::commands::{self, BuildOptions, CommandError, LogLevel, ProductId, SourcePaths};
use ledtransit::tools::doctor::{self, Diagnosis, StepResult, ToolCheckStep};
use ledtransit::tools::pages;
use ledtransit::tools::release::{
    self, DetectError, ManifestError, OtaMetadata, ReleaseError, ReleaseFile, VersionError,
};
use p256::pkcs8::{EncodePrivateKey, EncodePublicKey};

fn keys(seed: u8) -> (Vec<u8>, Vec<u8>) {
    let key = p256::SecretKey::from_slice(&[seed; 32]).unwrap();
    let private = key.to_pkcs8_der().unwrap().as_bytes().to_vec();
    let public = key.public_key().to_public_key_der().unwrap().as_bytes().to_vec();
    (private, public)
}

fn virtual_product() -> ProductConfig {
    ProductConfig {
        data_feed: "virtual",
        pixel_count: 2,
        pixel_indices_special: &[],
        loc_geo_kd_tree: &[],
        loc_pix_nodes: &[],
        min_delay_minutes: 0,
        max_delay_minutes: 10,
        min_speed_kmph: 0,
        max_speed_kmph: 100,
        cos_lat_q15: 1,
    }
}

// Commands

#[test]
fn product_ids_and_names() {
    assert_eq!(ProductId::Bln1_2512_1.to_str(), "bln1-2512-1");
    assert_eq!(ProductId::Bln2_2512_1.to_str(), "bln2-2512-1");
    assert_eq!(ProductId::from_str("bln1-2512-1"), Some(ProductId::Bln1_2512_1));
    assert_eq!(ProductId::from_str("bln2-2512-1"), Some(ProductId::Bln2_2512_1));
    assert_eq!(ProductId::from_str("virt1-1-1"), None);
    assert_eq!(ProductId::from_str(""), None);
}

#[test]
fn log_levels() {
    let names: Vec<&str> = [
        LogLevel::Off,
        LogLevel::Error,
        LogLevel::Warn,
        LogLevel::Info,
        LogLevel::Debug,
        LogLevel::Trace,
    ]
    .iter()
    .map(|l| l.as_str())
    .collect();
    assert_eq!(names, vec!["off", "error", "warn", "info", "debug", "trace"]);
}

#[test]
fn arguments_of_commands() {
    assert_eq!(
        commands::build_args(),
        vec!["build", "--target", "riscv32imc-unknown-none-elf", "--release"]
    );
    assert_eq!(
        commands::clippy_args(false, false),
        vec!["clippy", "--target", "riscv32imc-unknown-none-elf", "--release"]
    );
    assert_eq!(
        commands::clippy_args(true, true)[4..],
        ["--fix".to_string(), "--allow-dirty".to_string()]
    );
    assert_eq!(commands::erase_args(), vec!["erase-region", "53248", "8192"]);
    assert_eq!(
        commands::flash_args("x.elf"),
        vec![
            "flash",
            "--chip=esp32c3",
            "--bootloader=assets/boot_image/bootloader.bin",
            "--partition-table=partitions.csv",
            "--skip-update-check",
            "--baud=4000000",
            "x.elf"
        ]
    );
    assert_eq!(
        commands::save_image_args("x.elf", "x.bin"),
        vec![
            "save-image",
            "--chip=esp32c3",
            "--partition-table=partitions.csv",
            "--bootloader=assets/boot_image/bootloader.bin",
            "x.elf",
            "x.bin"
        ]
    );
    assert_eq!(
        commands::read_info_args("info.bin"),
        vec!["read-flash", "--chip", "esp32c3", "--skip-update-check", "0x3FF000", "64", "info.bin"]
    );
    assert_eq!(commands::monitor_args().len(), 10);
    assert_eq!(commands::monitor_args()[0], "attach");
    assert_eq!(
        commands::bootloader_command("/opt/idf"),
        "source \"/opt/idf/export.sh\" && idf.py build bootloader"
    );
}

#[test]
fn arguments_that_select_a_toolchain() {
    assert!(!commands::any_selects_toolchain(&commands::build_args()));
    assert!(commands::any_selects_toolchain(&vec!["+nightly".to_string()]));
    assert!(!commands::any_selects_toolchain(&vec!["".to_string(), "a+".to_string()]));
}

fn options() -> BuildOptions {
    BuildOptions {
        log: LogLevel::Debug,
        wifi_ssid: None,
        wifi_password: None,
        provisioning_token: None,
        api_token: None,
        gateway_host: None,
        gateway_port: None,
        ssl_enable: None,
    }
}

fn pair(name: &str, value: &str) -> (String, String) {
    (name.to_string(), value.to_string())
}

#[test]
fn environment_of_a_development_build() {
    assert_eq!(
        commands::build_env(ProductId::Bln1_2512_1, options()),
        vec![pair("PRODUCT", "bln1-2512-1"), pair("DEFMT_LOG", "debug")]
    );
    let all = BuildOptions {
        wifi_ssid: Some("net".to_string()),
        wifi_password: Some("pw".to_string()),
        provisioning_token: Some("prov".to_string()),
        api_token: Some("api".to_string()),
        gateway_host: Some("host".to_string()),
        gateway_port: Some(8080),
        ssl_enable: Some(false),
        ..options()
    };
    assert_eq!(
        commands::build_env(ProductId::Bln2_2512_1, all)[1..],
        [
            pair("DEFMT_LOG", "debug"),
            pair("WIFI_SSID", "net"),
            pair("WIFI_PASSWORD", "pw"),
            pair("PROVISIONING_TOKEN", "prov"),
            pair("API_TOKEN", "api"),
            pair("GATEWAY_HOST", "host"),
            pair("GATEWAY_PORT", "8080"),
            pair("SSL_ENABLED", "false"),
        ]
    );
}

#[test]
fn environment_of_a_release_build() {
    let paths = SourcePaths {
        working_dir: "/w".to_string(),
        cargo_home: "/c".to_string(),
        rustup_home: "/r".to_string(),
        rustup_toolchain: "stable".to_string(),
    };
    let env = commands::release_env(ProductId::Bln1_2512_1, &paths);
    assert_eq!(env[..3], commands::factory_env(ProductId::Bln1_2512_1)[..]);
    assert_eq!(env[2], pair("RELEASE", "true"));
    assert_eq!(
        env[3].1,
        "-C link-arg=-Tlinkall.x -C link-arg=-Tdefmt.x --remap-path-prefix=/w=wd/ \
         --remap-path-prefix=/c/registry/src=io/ --remap-path-prefix=/c/git/checkouts=co/ \
         --remap-path-prefix=/r/toolchains/stable/lib/rustlib/src/rust/library=rl/ "
    );
}

#[test]
fn builds_for_the_connected_product() {
    let (one, two) = (ProductId::Bln1_2512_1, ProductId::Bln2_2512_1);
    assert_eq!(commands::select_product(Some(one), None), Ok((one, false)));
    assert_eq!(commands::select_product(Some(one), Some((one, true))), Ok((one, false)));
    assert_eq!(
        commands::select_product(Some(one), Some((two, true))),
        Err(CommandError::ProductMismatch)
    );
    assert_eq!(commands::select_product(None, Some((two, true))), Ok((two, true)));
    assert!(commands::resets_boot_selection(true, false));
    assert!(!commands::resets_boot_selection(true, true));
    assert!(!commands::resets_boot_selection(false, false));
}

#[test]
fn factory_firmware_from_a_clean_tagged_commit() {
    assert_eq!(commands::check_repository(b"", true), Ok(()));
    assert_eq!(commands::check_repository(b" M x\n", true), Err(CommandError::NotClean));
    assert_eq!(commands::check_repository(b"", false), Err(CommandError::NotTagged));
}

#[test]
fn product_that_is_built_for() {
    let p = commands::product_for_build(Some("bln1-2512-1")).unwrap();
    assert_eq!((p.group.as_str(), p.hw_major.as_str(), p.hw_minor.as_str()), ("bln1", "2512", "1"));
    let p = commands::product_for_build(None).unwrap();
    assert_eq!(p.product, "virt1-1-1");
    assert_eq!((p.group.as_str(), p.hw_major.as_str(), p.hw_minor.as_str()), ("virt1", "1", "1"));
    assert!(commands::product_for_build(Some("bln3-1-1")).is_none());
}

// Checks of the development environment

#[test]
fn recent_rust_will_do() {
    assert!(doctor::check_rust_version("rustc 1.88.0 (6b00bc388 2025-06-23)"));
    assert!(doctor::check_rust_version("rustc 1.90.1 (x)"));
    assert!(doctor::check_rust_version("rustc 2.0.0"));
    assert!(!doctor::check_rust_version("rustc 1.87.9 (x)"));
    assert!(!doctor::check_rust_version("rustc 1.88"));
    assert!(!doctor::check_rust_version("rustc"));
    assert!(doctor::check_rust_version("rustc 1.88.0-nightly"));
    assert!(!doctor::check_rust_version("rustc x.99.0"));
}

#[test]
fn steps_look_at_success_and_output() {
    let steps = doctor::steps();
    assert_eq!(steps[0], ToolCheckStep::RustToolchain);
    assert_eq!(steps[5].command(), "espflash --version");
    assert_eq!(steps[1].tool(), "Rust toolchain");
    assert!(steps[0].check(true, "stable-x86_64-unknown-linux-gnu (default)"));
    assert!(!steps[0].check(false, "stable"));
    assert!(!steps[0].check(true, "nightly"));
    assert!(steps[2].check(true, "riscv32imc-unknown-none-elf\n"));
    assert!(!steps[2].check(true, "thumbv7em-none-eabi\n"));
    assert!(steps[3].check(true, ""));
    assert!(!steps[4].check(false, ""));
}

#[test]
fn diagnosis_counts_failures() {
    let ok = StepResult { is_critical: true, passed: true };
    let bad = StepResult { is_critical: true, passed: false };
    let minor = StepResult { is_critical: false, passed: false };
    assert_eq!(doctor::diagnose(&vec![ok, ok]), Diagnosis::AllPassed);
    assert_eq!(doctor::diagnose(&vec![]), Diagnosis::AllPassed);
    assert_eq!(doctor::diagnose(&vec![ok, bad, minor, bad]), Diagnosis::CriticalFailures(2));
    assert_eq!(doctor::diagnose(&vec![minor, ok]), Diagnosis::NonCriticalFailures(1));
}

// Pages

#[test]
fn pages_are_translated() {
    let page = "<h1>{{title}}</h1>{{body}} {{title}} {{gone}} {{number}}.";
    let language = r#"{"title": "Hallo", "body": "Text", "number": 7}"#;
    let (translated, missing) = pages::translate_page(page, language).unwrap();
    assert_eq!(translated, "<h1>Hallo</h1>Text Hallo {{gone}} .");
    assert_eq!(missing, vec!["gone"]);
    assert!(pages::translate_page(page, "{").is_none());
    let (same, missing) = pages::translate_page("no keys", "[]").unwrap();
    assert_eq!(same, "no keys");
    assert!(missing.is_empty());
}

#[test]
fn keys_are_translated_one_after_the_other() {
    let keys = vec![pair("{{a}}", "a"), pair("{{b}}", "b")];
    let members = vec![
        ("a".to_string(), Some("{{b}}".to_string())),
        ("b".to_string(), Some("x".to_string())),
    ];
    let (page, missing) = pages::translate_keys("{{a}} {{b}}", &keys, &members);
    assert_eq!(page, "x x");
    assert!(missing.is_empty());
}

#[test]
fn pages_are_named_by_their_language() {
    assert_eq!(pages::locale_suffix("lang/de.json"), "de");
    assert_eq!(pages::locale_suffix("en"), "en");
    assert_eq!(
        pages::localized_path("../assets/setup-wifi.html", "de"),
        "../assets/setup-wifi+de.html"
    );
}

#[test]
fn pages_are_made_small() {
    let small = pages::minify_page("<p>  Hello,   world!  </p>");
    assert_eq!(small, b"<p>Hello, world!".to_vec());
    let small = pages::minify_page("<a  title='x'  href=/y >z</a><!-- gone -->");
    assert_eq!(small, b"<a href=/y title=x>z</a>".to_vec());
}

#[test]
fn pages_without_scripts() {
    assert!(pages::is_plain(""));
    assert!(pages::is_plain("<p>no script</p><style>a{}</style><TITLE>t</TITLE >"));
    assert!(pages::is_plain("<title>t</title"));
    assert!(!pages::is_plain("<p><script>let x = 1;</script>"));
    assert!(!pages::is_plain("<SCRipt src=x>"));
    assert!(!pages::is_plain("<style>a{}</stylex>"));
    assert!(!pages::is_plain("</Textarea-x>"));
}

// Releases

#[test]
fn versions_are_read() {
    assert_eq!(release::parse_version_str("1.2.3"), Ok((1, 2, 3)));
    assert_eq!(release::parse_version_str("0.0.4294967295"), Ok((0, 0, u32::MAX)));
    assert_eq!(release::parse_version_str("1.2"), Err(VersionError::Format));
    assert_eq!(release::parse_version_str("1.2.3.4"), Err(VersionError::Format));
    assert_eq!(release::parse_version_str("x.2.3"), Err(VersionError::Major));
    assert_eq!(release::parse_version_str("1.-2.3"), Err(VersionError::Minor));
    assert_eq!(release::parse_version_str("1.2.4294967296"), Err(VersionError::Patch));
}

#[test]
fn versions_read_back() {
    for v in [(0, 0, 0), (1, 20, 300), (u32::MAX, 0, 1)] {
        let s = release::format_version(v.0, v.1, v.2);
        assert_eq!(s, format!("{}.{}.{}", v.0, v.1, v.2));
        assert_eq!(release::parse_version_str(&s), Ok(v));
    }
}

#[test]
fn version_of_a_manifest() {
    assert_eq!(
        release::manifest_version("[package]\nname = \"x\"\nversion = \"1.4.0\"\n"),
        Ok("1.4.0".to_string())
    );
    assert_eq!(
        release::manifest_version("[package]\nname = \"x\"\n"),
        Err(ManifestError::VersionMissing)
    );
    assert_eq!(
        release::manifest_version("[package]\nversion = 3\n"),
        Err(ManifestError::VersionMissing)
    );
    assert_eq!(release::manifest_version("[package"), Err(ManifestError::Unreadable));
    assert_eq!(release::check_manifest_version(None), Err(ManifestError::Unreadable));
}

#[test]
fn home_path_in_a_file() {
    assert!(release::holds_home_path(b"\0\x01/home/me/src/main.rs\0", "/home/me"));
    assert!(!release::holds_home_path(b"\0\x01wd/src/main.rs\0", "/home/me"));
}

#[test]
fn bytes_in_upper_case() {
    assert_eq!(release::format_upper(&[0x00, 0xAB, 0x7f]), "00AB7F");
    assert_eq!(hex::decode(release::format_upper(&[1, 2, 255])).unwrap(), vec![1, 2, 255]);
}

fn update_of(metadata: &OtaMetadata) -> DeviceUpdate {
    let (major, minor, patch) = release::parse_version_str(&metadata.version).unwrap();
    DeviceUpdate {
        firmware_version_major: major,
        firmware_version_minor: minor,
        firmware_version_patch: patch,
        image_url: "https://cdn.example.com/image.bin".to_string(),
        size_bytes: metadata.size_bytes as u32,
        sha256_hash: hex::decode(&metadata.sha256_hash).unwrap(),
        p256_signature: hex::decode(&metadata.p256_signature).unwrap(),
    }
}

#[test]
fn release_is_accepted_by_the_device() {
    let (private, public) = keys(7);
    let metadata = release::make_metadata(
        ProductId::Bln1_2512_1,
        "1.2.3",
        "2025-01-01T00:00:00+00:00",
        b"hello",
        &private,
        &public,
    )
    .unwrap();
    assert_eq!(metadata.product_id, "bln1-2512-1");
    assert_eq!(metadata.built_at, "2025-01-01T00:00:00+00:00");
    assert_eq!(metadata.size_bytes, 5);
    assert_eq!(
        metadata.sha256_hash,
        "2cf24dba5fb0a30e26e83b2ac5b9e29e1b161e5c1fa7425e73043362938b9824"
    );
    assert_eq!(metadata.p256_signature.len(), 128);
    let update = update_of(&metadata);
    assert_eq!(firmware_signature::verify_update(&update, "bln1-2512-1", &public), Verdict::Valid);
    assert_eq!(
        firmware_signature::verify_update(&update, "bln2-2512-1", &public),
        Verdict::Mismatch
    );
    let (_, other) = keys(8);
    assert_eq!(
        firmware_signature::verify_update(&update, "bln1-2512-1", &other),
        Verdict::Mismatch
    );
    assert_eq!(
        firmware_signature::verify_update(&update, "bln1-2512-1", b"no key"),
        Verdict::KeyInvalid
    );
    let mut larger = update.duplicate();
    larger.size_bytes += 1;
    assert_eq!(
        firmware_signature::verify_update(&larger, "bln1-2512-1", &public),
        Verdict::Mismatch
    );
    let mut cut = update.duplicate();
    cut.p256_signature.pop();
    assert_eq!(
        firmware_signature::verify_update(&cut, "bln1-2512-1", &public),
        Verdict::Malformed
    );
}

#[test]
fn releases_that_fail() {
    let (private, public) = keys(7);
    let (_, other) = keys(8);
    let make = |version: &str, private: &[u8], public: &[u8]| {
        release::make_metadata(ProductId::Bln1_2512_1, version, "now", b"image", private, public)
            .err()
    };
    assert_eq!(make("1.2", &private, &public), Some(ReleaseError::Version(VersionError::Format)));
    assert_eq!(make("1.2.3", b"no key", &public), Some(ReleaseError::PrivateKey));
    assert_eq!(make("1.2.3", &private, b"no key"), Some(ReleaseError::PublicKey));
    assert_eq!(make("1.2.3", &private, &other), Some(ReleaseError::Verification));
    assert_eq!(make("1.2.3", &private, &public), None);
    assert_eq!(release::check_signing(true, None, true, true), Err(ReleaseError::Signing));
    assert_eq!(release::check_signing(true, Some(vec![1]), true, true), Ok(vec![1]));
}

#[test]
fn release_without_the_home_path() {
    let (private, public) = keys(7);
    let make = |version: &str, elf: &[u8], image: &[u8], bootloader: &[u8]| {
        release::make_release(
            ProductId::Bln1_2512_1,
            version,
            "now",
            elf,
            image,
            bootloader,
            "/home/me",
            &private,
            &public,
        )
        .map(|m| m.size_bytes)
    };
    let told = b"at /home/me/src/main.rs";
    assert_eq!(make("1.2.3", b"elf", b"image", b"boot"), Ok(5));
    assert_eq!(
        make("1.2.3", told, told, told),
        Err(ReleaseError::HomePath(ReleaseFile::Elf))
    );
    assert_eq!(
        make("1.2.3", b"elf", told, told),
        Err(ReleaseError::HomePath(ReleaseFile::Image))
    );
    assert_eq!(
        make("1.2.3", b"elf", b"image", told),
        Err(ReleaseError::HomePath(ReleaseFile::Bootloader))
    );
    assert_eq!(
        make("1.2", told, told, told),
        Err(ReleaseError::Version(VersionError::Format))
    );
    assert_eq!(release::find_home_path(b"a", b"b", b"/home/m", "/home/me"), None);
}

#[test]
fn only_what_was_released_is_activated() {
    let (private, public) = keys(7);
    let metadata = release::make_metadata(
        ProductId::Bln1_2512_1,
        "1.2.3",
        "now",
        b"hello",
        &private,
        &public,
    )
    .unwrap();
    let update = update_of(&metadata);
    let mut flash_hash = [0u8; 32];
    flash_hash.copy_from_slice(&hex::decode(&metadata.sha256_hash).unwrap());
    let after = |update: &DeviceUpdate, product: &str, key: &[u8], downloaded| {
        let mut session = SessionSettings::default();
        session.updating_firmware = true;
        let mut fx = Effects::new();
        let step = ota::after_download(update, product, key, downloaded, &mut session, &mut fx);
        let given_up = matches!(step, UpdateStep::GiveUp(_));
        assert_eq!(session.updating_firmware, !given_up);
        assert_eq!(session.update_has_failed, given_up);
        (step, fx.list.len())
    };
    let product = "bln1-2512-1";
    assert_eq!(after(&update, product, &public, Ok(flash_hash)), (UpdateStep::Activate, 0));
    assert_eq!(
        after(&update, product, &public, Err(OtaError::Timeout)),
        (UpdateStep::GiveUp(OtaError::Timeout), 5)
    );
    assert_eq!(
        after(&update, product, &public, Ok([0; 32])),
        (UpdateStep::GiveUp(OtaError::HashMismatchError), 6)
    );
    assert_eq!(
        after(&update, "bln2-2512-1", &public, Ok(flash_hash)),
        (UpdateStep::End(OtaError::SignatureVerificationError), 1)
    );
    let mut cut = update.duplicate();
    cut.p256_signature.pop();
    assert_eq!(
        after(&cut, product, &public, Ok(flash_hash)),
        (UpdateStep::End(OtaError::SignatureMalformedError), 0)
    );
    assert_eq!(
        after(&update, product, b"no key", Ok(flash_hash)),
        (UpdateStep::KeyInvalid, 0)
    );
}

#[test]
fn message_says_what_is_signed() {
    let hash = [9u8; 32];
    let message = firmware_signature::signed_message(1, 2, 0x01020304, 0x14F000, &hash, "bln1-2512-1");
    let mut expected = vec![1, 0, 0, 0, 2, 0, 0, 0, 4, 3, 2, 1, 0x00, 0xF0, 0x14, 0x00];
    expected.extend_from_slice(&hash);
    expected.extend_from_slice(b"bln1-2512-1");
    assert_eq!(message, expected);
    assert_ne!(
        message,
        firmware_signature::signed_message(1, 2, 0x01020304, 0x14F000, &hash, "bln2-2512-1")
    );
}

#[test]
fn verdicts() {
    assert_eq!(firmware_signature::judge(false, true, true), Verdict::KeyInvalid);
    assert_eq!(firmware_signature::judge(true, false, true), Verdict::Malformed);
    assert_eq!(firmware_signature::judge(true, true, false), Verdict::Mismatch);
    assert_eq!(firmware_signature::judge(true, true, true), Verdict::Valid);
}

#[test]
fn signatures_are_reproducible() {
    let (private, public) = keys(3);
    let a = release::sign_message(b"message", &private, &public).unwrap();
    let b = release::sign_message(b"message", &private, &public).unwrap();
    assert_eq!(a, b);
    assert_eq!(a.len(), 64);
    assert_ne!(a, release::sign_message(b"other", &private, &public).unwrap());
}

// Devices

#[test]
fn device_is_told_by_its_info() {
    let config = Config {
        product: Product::Bln2_2512_1,
        hw_version: HardwareVersion { major: 2512, minor: 1 },
        fw_version: FirmwareVersion { major: 1, minor: 2, patch: 3, beta: true },
        cfg: virtual_product(),
    };
    let mut session = SessionSettings::default();
    session.is_factory_firmware = true;
    let written = info::device_info(&config, &session);
    assert_eq!(written.magic, 0xEDA1BEE);
    assert!(written.firmware.is_beta);
    assert!(!written.firmware.is_rolled_back);
    assert_eq!(
        release::detect_connected_device(&written),
        Ok((ProductId::Bln2_2512_1, "1.2.3".to_string(), true))
    );
}

#[test]
fn device_that_is_not_known() {
    let firmware = FirmwareInfo {
        version_major: 1,
        version_minor: 0,
        version_patch: 0,
        is_beta: false,
        is_factory: false,
        is_rolled_back: false,
    };
    let info = DeviceInfo { magic: 0, product_id: "bln1-2512-1".to_string(), firmware };
    assert_eq!(release::detect_connected_device(&info), Err(DetectError::Magic));
    let info = DeviceInfo { magic: 0xEDA1BEE, product_id: "virt-1-1".to_string(), firmware };
    assert_eq!(release::detect_connected_device(&info), Err(DetectError::UnknownProduct));
}
