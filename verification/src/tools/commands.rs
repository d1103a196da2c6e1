//! The commands that the tools run.

use vstd::prelude::*;

use crate::net::prov_server::pair_texts;
use crate::text;

verus! {

/// The products that firmware is built for.
#[derive(Debug, Copy, Clone, PartialEq, Eq, Structural)]
pub enum ProductId {
    Bln1_2512_1,
    Bln2_2512_1,
}

impl ProductId {
    /// The identifier of a product.
    pub open spec fn ident(self) -> Seq<char> {
        match self {
            ProductId::Bln1_2512_1 => "bln1-2512-1"@,
            ProductId::Bln2_2512_1 => "bln2-2512-1"@,
        }
    }

    pub fn to_str(&self) -> (s: &'static str)
        ensures
            s@ == self.ident(),
    {
        match self {
            ProductId::Bln1_2512_1 => "bln1-2512-1",
            ProductId::Bln2_2512_1 => "bln2-2512-1",
        }
    }

    /// The product with an identifier.
    pub fn from_str(s: &str) -> (r: Option<Self>)
        ensures
            r matches Some(product) ==> s@ == product.ident(),
            forall|product: ProductId| s@ == #[trigger] product.ident() ==> r == Some(product),
    {
        proof {
            lemma_products_differ();
            assert(ProductId::Bln1_2512_1.ident() == "bln1-2512-1"@);
            assert(ProductId::Bln2_2512_1.ident() == "bln2-2512-1"@);
        }
        if text::same_text(s, "bln1-2512-1") {
            Some(ProductId::Bln1_2512_1)
        } else if text::same_text(s, "bln2-2512-1") {
            Some(ProductId::Bln2_2512_1)
        } else {
            None
        }
    }
}

/// The identifiers of products differ.
pub proof fn lemma_products_differ()
    ensures
        forall|a: ProductId, b: ProductId| #[trigger] a.ident() == #[trigger] b.ident() ==> a == b,
{
    reveal_strlit("bln1-2512-1");
    reveal_strlit("bln2-2512-1");
    assert("bln1-2512-1"@[3] == '1');
    assert("bln2-2512-1"@[3] == '2');
}

/// How much the firmware logs.
#[derive(Debug, Copy, Clone, PartialEq, Eq, Structural)]
pub enum LogLevel {
    Off,
    Error,
    Warn,
    Info,
    Debug,
    Trace,
}

impl LogLevel {
    /// The name of a level.
    pub open spec fn name(self) -> Seq<char> {
        match self {
            LogLevel::Off => "off"@,
            LogLevel::Error => "error"@,
            LogLevel::Warn => "warn"@,
            LogLevel::Info => "info"@,
            LogLevel::Debug => "debug"@,
            LogLevel::Trace => "trace"@,
        }
    }

    pub fn as_str(&self) -> (s: &'static str)
        ensures
            s@ == self.name(),
    {
        match self {
            LogLevel::Off => "off",
            LogLevel::Error => "error",
            LogLevel::Warn => "warn",
            LogLevel::Info => "info",
            LogLevel::Debug => "debug",
            LogLevel::Trace => "trace",
        }
    }
}

/// What firmware is compiled for.
pub const TARGET: &'static str = "riscv32imc-unknown-none-elf";

/// Where in flash the choice of the boot partition is.
pub const OTADATA_OFFSET: u32 = 0xD000;

/// Size of the choice of the boot partition.
pub const OTADATA_SIZE: u32 = 0x2000;

/// Where in flash the device info is, as an argument.
pub const DEVICE_INFO_OFFSET: &'static str = "0x3FF000";

// ---------------------------------------------------------------------------------------------
// Arguments
// ---------------------------------------------------------------------------------------------

/// The arguments of a build.
pub open spec fn build_args_of() -> Seq<Seq<char>> {
    seq!["build"@, "--target"@, TARGET@, "--release"@]
}

/// The arguments for `cargo` to build firmware.
pub fn build_args() -> (r: Vec<String>)
    ensures
        text::texts(r@) == build_args_of(),
{
    let mut args: Vec<String> = Vec::new();
    args.push("build".to_owned());
    args.push("--target".to_owned());
    args.push(TARGET.to_owned());
    args.push("--release".to_owned());
    assert(text::texts(args@) =~= build_args_of());
    args
}

/// The arguments of the linter.
pub open spec fn clippy_args_of(fix: bool, allow_dirty: bool) -> Seq<Seq<char>> {
    seq!["clippy"@, "--target"@, TARGET@, "--release"@] + (if fix {
        seq!["--fix"@]
    } else {
        Seq::empty()
    }) + (if allow_dirty {
        seq!["--allow-dirty"@]
    } else {
        Seq::empty()
    })
}

/// The arguments for `cargo` to run the linter.
pub fn clippy_args(fix: bool, allow_dirty: bool) -> (r: Vec<String>)
    ensures
        text::texts(r@) == clippy_args_of(fix, allow_dirty),
{
    let mut args: Vec<String> = Vec::new();
    args.push("clippy".to_owned());
    args.push("--target".to_owned());
    args.push(TARGET.to_owned());
    args.push("--release".to_owned());
    if fix {
        args.push("--fix".to_owned());
    }
    if allow_dirty {
        args.push("--allow-dirty".to_owned());
    }
    assert(text::texts(args@) =~= clippy_args_of(fix, allow_dirty));
    args
}

/// The arguments for `espflash` to have a device boot its factory firmware.
pub fn erase_args() -> (r: Vec<String>)
    ensures
        text::texts(r@) == seq![
            "erase-region"@,
            text::decimal_text(OTADATA_OFFSET as nat),
            text::decimal_text(OTADATA_SIZE as nat),
        ],
{
    let mut offset = String::new();
    text::append_number(&mut offset, OTADATA_OFFSET as u64);
    let mut size = String::new();
    text::append_number(&mut size, OTADATA_SIZE as u64);
    assert(offset@ =~= text::decimal_text(OTADATA_OFFSET as nat));
    assert(size@ =~= text::decimal_text(OTADATA_SIZE as nat));
    let mut args: Vec<String> = Vec::new();
    args.push("erase-region".to_owned());
    args.push(offset);
    args.push(size);
    assert(text::texts(args@) =~= seq![
        "erase-region"@,
        text::decimal_text(OTADATA_OFFSET as nat),
        text::decimal_text(OTADATA_SIZE as nat),
    ]);
    args
}

/// The arguments to flash firmware.
pub open spec fn flash_args_of(elf_path: Seq<char>) -> Seq<Seq<char>> {
    seq![
        "flash"@,
        "--chip=esp32c3"@,
        "--bootloader=assets/boot_image/bootloader.bin"@,
        "--partition-table=partitions.csv"@,
        "--skip-update-check"@,
        "--baud=4000000"@,
        elf_path,
    ]
}

/// The arguments for `espflash` to flash firmware.
pub fn flash_args(elf_path: &str) -> (r: Vec<String>)
    ensures
        text::texts(r@) == flash_args_of(elf_path@),
{
    let mut args: Vec<String> = Vec::new();
    args.push("flash".to_owned());
    args.push("--chip=esp32c3".to_owned());
    args.push("--bootloader=assets/boot_image/bootloader.bin".to_owned());
    args.push("--partition-table=partitions.csv".to_owned());
    args.push("--skip-update-check".to_owned());
    args.push("--baud=4000000".to_owned());
    args.push(elf_path.to_owned());
    assert(text::texts(args@) =~= flash_args_of(elf_path@));
    args
}

/// The arguments to make an image of firmware.
pub open spec fn save_image_args_of(elf_path: Seq<char>, image_path: Seq<char>) -> Seq<Seq<char>> {
    seq![
        "save-image"@,
        "--chip=esp32c3"@,
        "--partition-table=partitions.csv"@,
        "--bootloader=assets/boot_image/bootloader.bin"@,
        elf_path,
        image_path,
    ]
}

/// The arguments for `espflash` to make an image of firmware.
pub fn save_image_args(elf_path: &str, image_path: &str) -> (r: Vec<String>)
    ensures
        text::texts(r@) == save_image_args_of(elf_path@, image_path@),
{
    let mut args: Vec<String> = Vec::new();
    args.push("save-image".to_owned());
    args.push("--chip=esp32c3".to_owned());
    args.push("--partition-table=partitions.csv".to_owned());
    args.push("--bootloader=assets/boot_image/bootloader.bin".to_owned());
    args.push(elf_path.to_owned());
    args.push(image_path.to_owned());
    assert(text::texts(args@) =~= save_image_args_of(elf_path@, image_path@));
    args
}

/// The arguments to read the device info.
pub open spec fn read_info_args_of(file_path: Seq<char>) -> Seq<Seq<char>> {
    seq![
        "read-flash"@,
        "--chip"@,
        "esp32c3"@,
        "--skip-update-check"@,
        DEVICE_INFO_OFFSET@,
        "64"@,
        file_path,
    ]
}

/// The arguments for `espflash` to read the device info into a file.
pub fn read_info_args(file_path: &str) -> (r: Vec<String>)
    ensures
        text::texts(r@) == read_info_args_of(file_path@),
{
    let mut args: Vec<String> = Vec::new();
    args.push("read-flash".to_owned());
    args.push("--chip".to_owned());
    args.push("esp32c3".to_owned());
    args.push("--skip-update-check".to_owned());
    args.push(DEVICE_INFO_OFFSET.to_owned());
    args.push("64".to_owned());
    args.push(file_path.to_owned());
    assert(text::texts(args@) =~= read_info_args_of(file_path@));
    args
}

/// The arguments to follow the log of a device.
pub open spec fn monitor_args_of() -> Seq<Seq<char>> {
    seq![
        "attach"@,
        "--chip"@,
        "esp32c3"@,
        "--preverify"@,
        "--always-print-stacktrace"@,
        "--no-location"@,
        "--catch-hardfault"@,
        "--idf-partition-table=partitions.csv"@,
        "--idf-bootloader=assets/boot_image/bootloader.bin"@,
        "target/riscv32imc-unknown-none-elf/release/fw-ledtransit-map"@,
    ]
}

/// The arguments for `probe-rs` to follow the log of a device.
pub fn monitor_args() -> (r: Vec<String>)
    ensures
        text::texts(r@) == monitor_args_of(),
{
    let mut args: Vec<String> = Vec::new();
    args.push("attach".to_owned());
    args.push("--chip".to_owned());
    args.push("esp32c3".to_owned());
    args.push("--preverify".to_owned());
    args.push("--always-print-stacktrace".to_owned());
    args.push("--no-location".to_owned());
    args.push("--catch-hardfault".to_owned());
    args.push("--idf-partition-table=partitions.csv".to_owned());
    args.push("--idf-bootloader=assets/boot_image/bootloader.bin".to_owned());
    args.push("target/riscv32imc-unknown-none-elf/release/fw-ledtransit-map".to_owned());
    assert(text::texts(args@) =~= monitor_args_of());
    args
}

/// The command that builds the bootloader.
pub fn bootloader_command(idf_path: &str) -> (s: String)
    ensures
        s@ == "source \""@ + idf_path@ + "/export.sh\" && idf.py build bootloader"@,
{
    let mut s = "source \"".to_owned();
    s.append(idf_path);
    s.append("/export.sh\" && idf.py build bootloader");
    s
}

/// Whether an argument selects a toolchain.
pub open spec fn selects_toolchain(arg: Seq<char>) -> bool {
    arg.len() > 0 && arg[0] == '+'
}

/// Whether one of the arguments selects a toolchain.
pub fn any_selects_toolchain(args: &Vec<String>) -> (r: bool)
    ensures
        r == exists|i: int| 0 <= i < args@.len() && selects_toolchain((#[trigger] args@[i])@),
{
    let mut i: usize = 0;
    while i < args.len()
        invariant
            i <= args@.len(),
            forall|j: int| 0 <= j < i ==> !selects_toolchain((#[trigger] args@[j])@),
        decreases args@.len() - i,
    {
        let v = text::to_chars(args[i].as_str());
        if v.len() > 0 && v[0] == '+' {
            assert(selects_toolchain(args@[i as int]@));
            return true;
        }
        i = i + 1;
    }
    false
}

// ---------------------------------------------------------------------------------------------
// Environments
// ---------------------------------------------------------------------------------------------

/// What a development build can be told, beside the product.
#[derive(Debug)]
pub struct BuildOptions {
    pub log: LogLevel,
    pub wifi_ssid: Option<String>,
    pub wifi_password: Option<String>,
    pub provisioning_token: Option<String>,
    pub api_token: Option<String>,
    pub gateway_host: Option<String>,
    pub gateway_port: Option<u16>,
    pub ssl_enable: Option<bool>,
}

/// A variable, if it has a value.
pub open spec fn if_set(name: Seq<char>, value: Option<Seq<char>>) -> Seq<(Seq<char>, Seq<char>)> {
    match value {
        Some(v) => seq![(name, v)],
        None => Seq::empty(),
    }
}

/// The text of an optional string.
pub open spec fn text_of(s: Option<String>) -> Option<Seq<char>> {
    match s {
        Some(t) => Some(t@),
        None => None,
    }
}

/// The environment of a development build.
pub open spec fn build_env_of(product: ProductId, options: BuildOptions) -> Seq<
    (Seq<char>, Seq<char>),
> {
    seq![("PRODUCT"@, product.ident()), ("DEFMT_LOG"@, options.log.name())] + if_set(
        "WIFI_SSID"@,
        text_of(options.wifi_ssid),
    ) + if_set("WIFI_PASSWORD"@, text_of(options.wifi_password)) + if_set(
        "PROVISIONING_TOKEN"@,
        text_of(options.provisioning_token),
    ) + if_set("API_TOKEN"@, text_of(options.api_token)) + if_set(
        "GATEWAY_HOST"@,
        text_of(options.gateway_host),
    ) + if_set(
        "GATEWAY_PORT"@,
        match options.gateway_port {
            Some(port) => Some(text::decimal_text(port as nat)),
            None => None,
        },
    ) + if_set(
        "SSL_ENABLED"@,
        match options.ssl_enable {
            Some(true) => Some("true"@),
            Some(false) => Some("false"@),
            None => None,
        },
    )
}

fn push_var(env: &mut Vec<(String, String)>, name: &str, value: String)
    ensures
        pair_texts(final(env)@) == pair_texts(old(env)@).push((name@, value@)),
{
    let name = name.to_owned();
    env.push((name, value));
    assert(pair_texts(env@) =~= pair_texts(old(env)@).push((name@, value@)));
}

fn push_if_set(env: &mut Vec<(String, String)>, name: &str, value: Option<String>)
    ensures
        pair_texts(final(env)@) == pair_texts(old(env)@) + if_set(name@, text_of(value)),
{
    match value {
        Some(value) => {
            push_var(env, name, value);
        },
        None => {},
    }
    assert(pair_texts(env@) =~= pair_texts(old(env)@) + if_set(name@, text_of(value)));
}

/// The environment of a development build.
pub fn build_env(product: ProductId, options: BuildOptions) -> (env: Vec<(String, String)>)
    ensures
        pair_texts(env@) == build_env_of(product, options),
{
    let mut env: Vec<(String, String)> = Vec::new();
    assert(pair_texts(env@) =~= Seq::empty());
    push_var(&mut env, "PRODUCT", product.to_str().to_owned());
    push_var(&mut env, "DEFMT_LOG", options.log.as_str().to_owned());
    assert(pair_texts(env@) =~= seq![
        ("PRODUCT"@, product.ident()),
        ("DEFMT_LOG"@, options.log.name()),
    ]);
    let port = match options.gateway_port {
        Some(port) => {
            let mut s = String::new();
            text::append_number(&mut s, port as u64);
            assert(s@ =~= text::decimal_text(port as nat));
            Some(s)
        },
        None => None,
    };
    let ssl = match options.ssl_enable {
        Some(true) => Some("true".to_owned()),
        Some(false) => Some("false".to_owned()),
        None => None,
    };
    push_if_set(&mut env, "WIFI_SSID", options.wifi_ssid);
    push_if_set(&mut env, "WIFI_PASSWORD", options.wifi_password);
    push_if_set(&mut env, "PROVISIONING_TOKEN", options.provisioning_token);
    push_if_set(&mut env, "API_TOKEN", options.api_token);
    push_if_set(&mut env, "GATEWAY_HOST", options.gateway_host);
    push_if_set(&mut env, "GATEWAY_PORT", port);
    push_if_set(&mut env, "SSL_ENABLED", ssl);
    env
}

/// The environment of a release build, without flags for the compiler.
pub open spec fn factory_env_of(product: ProductId) -> Seq<(Seq<char>, Seq<char>)> {
    seq![("PRODUCT"@, product.ident()), ("DEFMT_LOG"@, "info"@), ("RELEASE"@, "true"@)]
}

/// The environment of a build of factory firmware.
pub fn factory_env(product: ProductId) -> (env: Vec<(String, String)>)
    ensures
        pair_texts(env@) == factory_env_of(product),
{
    let mut env: Vec<(String, String)> = Vec::new();
    push_var(&mut env, "PRODUCT", product.to_str().to_owned());
    push_var(&mut env, "DEFMT_LOG", "info".to_owned());
    push_var(&mut env, "RELEASE", "true".to_owned());
    assert(pair_texts(env@) =~= factory_env_of(product));
    env
}

/// Where the sources are that firmware is compiled from.
#[derive(Debug)]
pub struct SourcePaths {
    pub working_dir: String,
    pub cargo_home: String,
    pub rustup_home: String,
    pub rustup_toolchain: String,
}

/// The flags for the compiler in a release build: no path of this machine gets into the firmware.
pub open spec fn release_flags_of(paths: SourcePaths) -> Seq<char> {
    "-C link-arg=-Tlinkall.x -C link-arg=-Tdefmt.x --remap-path-prefix="@ + paths.working_dir@
        + "=wd/ --remap-path-prefix="@ + paths.cargo_home@
        + "/registry/src=io/ --remap-path-prefix="@ + paths.cargo_home@
        + "/git/checkouts=co/ --remap-path-prefix="@ + paths.rustup_home@ + "/toolchains/"@
        + paths.rustup_toolchain@ + "/lib/rustlib/src/rust/library=rl/ "@
}

/// The environment of a release build.
pub fn release_env(product: ProductId, paths: &SourcePaths) -> (env: Vec<(String, String)>)
    ensures
        pair_texts(env@) == factory_env_of(product).push(("RUSTFLAGS"@, release_flags_of(*paths))),
{
    let mut flags =
        "-C link-arg=-Tlinkall.x -C link-arg=-Tdefmt.x --remap-path-prefix=".to_owned();
    flags.append(paths.working_dir.as_str());
    flags.append("=wd/ --remap-path-prefix=");
    flags.append(paths.cargo_home.as_str());
    flags.append("/registry/src=io/ --remap-path-prefix=");
    flags.append(paths.cargo_home.as_str());
    flags.append("/git/checkouts=co/ --remap-path-prefix=");
    flags.append(paths.rustup_home.as_str());
    flags.append("/toolchains/");
    flags.append(paths.rustup_toolchain.as_str());
    flags.append("/lib/rustlib/src/rust/library=rl/ ");
    let mut env = factory_env(product);
    push_var(&mut env, "RUSTFLAGS", flags);
    env
}

// ---------------------------------------------------------------------------------------------
// Decisions
// ---------------------------------------------------------------------------------------------

/// Why a tool gives up.
#[derive(Debug, Copy, Clone, PartialEq, Eq, Structural)]
pub enum CommandError {
    /// The connected device is another product.
    ProductMismatch,
    /// There are changes that are not committed.
    NotClean,
    /// The commit has no tag.
    NotTagged,
}

/// The product to build for, by what was asked for and what is connected, and whether the connected
/// device boots its factory firmware. Of a product that was asked for, it counts as not so.
pub open spec fn selected(asked: Option<ProductId>, detected: Option<(ProductId, bool)>) -> Result<
    (ProductId, bool),
    CommandError,
> {
    match asked {
        Some(product) => if detected matches Some((connected, _)) && connected != product {
            Err(CommandError::ProductMismatch)
        } else {
            Ok((product, false))
        },
        None => Ok(detected->0),
    }
}

/// Decides which product to build for.
pub fn select_product(asked: Option<ProductId>, detected: Option<(ProductId, bool)>) -> (r: Result<
    (ProductId, bool),
    CommandError,
>)
    requires
        asked is Some || detected is Some,
    ensures
        r == selected(asked, detected),
{
    match asked {
        Some(product) => {
            if let Some((connected, _)) = detected {
                if connected != product {
                    return Err(CommandError::ProductMismatch);
                }
            }
            Ok((product, false))
        },
        None => Ok(detected.unwrap()),
    }
}

/// If a device is connected, firmware is built for no other product than it.
pub proof fn lemma_builds_for_connected_product(
    asked: Option<ProductId>,
    connected: ProductId,
    is_factory: bool,
)
    ensures
        selected(asked, Some((connected, is_factory))) matches Ok((product, _)) ==> product
            == connected,
        selected(asked, Some((connected, is_factory))) is Err <==> asked is Some && asked != Some(
            connected,
        ),
{
}

/// Whether the choice of the boot partition is to be erased before firmware is flashed.
pub fn resets_boot_selection(run: bool, is_factory: bool) -> (r: bool)
    ensures
        r == (run && !is_factory),
{
    run && !is_factory
}

/// Factory firmware is built from a commit with a tag, and without changes.
pub fn check_repository(status: &[u8], is_tagged: bool) -> (r: Result<(), CommandError>)
    ensures
        r == (if status@.len() > 0 {
            Err(CommandError::NotClean)
        } else if !is_tagged {
            Err(CommandError::NotTagged)
        } else {
            Ok(())
        }),
{
    if status.len() > 0 {
        Err(CommandError::NotClean)
    } else if !is_tagged {
        Err(CommandError::NotTagged)
    } else {
        Ok(())
    }
}

/// The product that is built for if none is named: it runs on no device.
pub const PROD_VIRTUAL: &'static str = "virt1-1-1";

/// Whether a name is that of a product.
pub open spec fn is_product_name(name: Seq<char>) -> bool {
    name == PROD_VIRTUAL@ || name == ProductId::Bln1_2512_1.ident() || name
        == ProductId::Bln2_2512_1.ident()
}

/// The product that is built for, and the parts of its name: the product group and the major and
/// minor version of the hardware.
#[derive(Debug)]
pub struct BuildProduct {
    pub product: String,
    pub group: String,
    pub hw_major: String,
    pub hw_minor: String,
}

/// Takes the name of the product that is built for apart. `None` if there is no such product, or its
/// name does not have three parts.
pub fn product_for_build(named: Option<&str>) -> (r: Option<BuildProduct>)
    ensures
        ({
            let name = match named {
                Some(s) => s@,
                None => PROD_VIRTUAL@,
            };
            let parts = text::split(name, '-');
            &&& r is Some <==> is_product_name(name) && parts.len() == 3
            &&& r matches Some(p) ==> p.product@ == name && p.group@ == parts[0] && p.hw_major@
                == parts[1] && p.hw_minor@ == parts[2]
        }),
{
    let name = match named {
        Some(s) => s,
        None => PROD_VIRTUAL,
    };
    if !text::same_text(name, PROD_VIRTUAL) && ProductId::from_str(name).is_none() {
        assert(ProductId::Bln1_2512_1.ident() != name@);
        assert(ProductId::Bln2_2512_1.ident() != name@);
        return None;
    }
    let parts = text::split_text(name, '-');
    let ghost texts = text::split(name@, '-');
    assert(texts.len() == parts@.len());
    if parts.len() != 3 {
        return None;
    }
    assert(texts[0] == parts@[0]@ && texts[1] == parts@[1]@ && texts[2] == parts@[2]@);
    Some(
        BuildProduct {
            product: name.to_owned(),
            group: parts[0].clone(),
            hw_major: parts[1].clone(),
            hw_minor: parts[2].clone(),
        },
    )
}

/// A development build is told its product and how much to log, and of the rest exactly what was
/// given: a variable for each, with its value, and no others.
pub proof fn lemma_build_env(product: ProductId, options: BuildOptions)
    ensures
        ({
            let env = build_env_of(product, options);
            let one = |given: bool|
                if given {
                    1int
                } else {
                    0
                };
            &&& env.len() == 2 + one(options.wifi_ssid is Some) + one(options.wifi_password is Some)
                + one(options.provisioning_token is Some) + one(options.api_token is Some) + one(
                options.gateway_host is Some,
            ) + one(options.gateway_port is Some) + one(options.ssl_enable is Some)
            &&& env[0] == ("PRODUCT"@, product.ident())
            &&& env[1] == ("DEFMT_LOG"@, options.log.name())
            &&& options.wifi_ssid matches Some(s) ==> env.contains(("WIFI_SSID"@, s@))
            &&& options.wifi_password matches Some(s) ==> env.contains(("WIFI_PASSWORD"@, s@))
            &&& options.provisioning_token matches Some(s) ==> env.contains(
                ("PROVISIONING_TOKEN"@, s@),
            )
            &&& options.api_token matches Some(s) ==> env.contains(("API_TOKEN"@, s@))
            &&& options.gateway_host matches Some(s) ==> env.contains(("GATEWAY_HOST"@, s@))
            &&& options.gateway_port matches Some(port) ==> env.contains(
                ("GATEWAY_PORT"@, text::decimal_text(port as nat)),
            )
            &&& options.ssl_enable == Some(true) ==> env.contains(("SSL_ENABLED"@, "true"@))
            &&& options.ssl_enable == Some(false) ==> env.contains(("SSL_ENABLED"@, "false"@))
        }),
{
    let e0 = seq![("PRODUCT"@, product.ident()), ("DEFMT_LOG"@, options.log.name())];
    let port = match options.gateway_port {
        Some(port) => Some(text::decimal_text(port as nat)),
        None => None,
    };
    let ssl = match options.ssl_enable {
        Some(true) => Some("true"@),
        Some(false) => Some("false"@),
        None => None,
    };
    let e1 = e0 + if_set("WIFI_SSID"@, text_of(options.wifi_ssid));
    let e2 = e1 + if_set("WIFI_PASSWORD"@, text_of(options.wifi_password));
    let e3 = e2 + if_set("PROVISIONING_TOKEN"@, text_of(options.provisioning_token));
    let e4 = e3 + if_set("API_TOKEN"@, text_of(options.api_token));
    let e5 = e4 + if_set("GATEWAY_HOST"@, text_of(options.gateway_host));
    let e6 = e5 + if_set("GATEWAY_PORT"@, port);
    lemma_var_added(e0, "WIFI_SSID"@, text_of(options.wifi_ssid));
    lemma_var_added(e1, "WIFI_PASSWORD"@, text_of(options.wifi_password));
    lemma_var_added(e2, "PROVISIONING_TOKEN"@, text_of(options.provisioning_token));
    lemma_var_added(e3, "API_TOKEN"@, text_of(options.api_token));
    lemma_var_added(e4, "GATEWAY_HOST"@, text_of(options.gateway_host));
    lemma_var_added(e5, "GATEWAY_PORT"@, port);
    lemma_var_added(e6, "SSL_ENABLED"@, ssl);
}

proof fn lemma_var_added(
    before: Seq<(Seq<char>, Seq<char>)>,
    name: Seq<char>,
    value: Option<Seq<char>>,
)
    requires
        before.len() >= 2,
    ensures
        ({
            let after = before + if_set(name, value);
            &&& after.len() == before.len() + (if value is Some {
                1int
            } else {
                0
            })
            &&& after[0] == before[0]
            &&& after[1] == before[1]
            &&& forall|var: (Seq<char>, Seq<char>)|
                before.contains(var) ==> #[trigger] after.contains(var)
            &&& value matches Some(v) ==> after.contains((name, v))
        }),
{
    let after = before + if_set(name, value);
    assert forall|var: (Seq<char>, Seq<char>)| before.contains(var) implies #[trigger]
        after.contains(var) by {
        assert(after[before.index_of(var)] == var);
    }
    if let Some(v) = value {
        assert(after[before.len() as int] == (name, v));
    }
}

proof fn lemma_occurs_within(before: Seq<char>, needle: Seq<char>, after: Seq<char>)
    ensures
        text::occurs(before + needle + after, needle),
{
    let hay = before + needle + after;
    assert(hay.subrange(before.len() as int, (before.len() + needle.len()) as int) =~= needle);
    assert(text::is_at(hay, needle, before.len() as int));
}

/// A release build is told its product, and that it is one. Every path of the machine that sources
/// are read from is made into a short one: that of the project, those of packages, and that of the
/// standard library.
pub proof fn lemma_release_build(product: ProductId, paths: SourcePaths)
    ensures
        factory_env_of(product).len() == 3,
        factory_env_of(product).contains(("PRODUCT"@, product.ident())),
        factory_env_of(product).contains(("RELEASE"@, "true"@)),
        text::occurs(release_flags_of(paths), paths.working_dir@ + "=wd/ --remap-path-prefix="@),
        text::occurs(
            release_flags_of(paths),
            paths.cargo_home@ + "/registry/src=io/ --remap-path-prefix="@,
        ),
        text::occurs(
            release_flags_of(paths),
            paths.cargo_home@ + "/git/checkouts=co/ --remap-path-prefix="@,
        ),
        text::occurs(
            release_flags_of(paths),
            paths.rustup_home@ + "/toolchains/"@ + paths.rustup_toolchain@
                + "/lib/rustlib/src/rust/library=rl/ "@,
        ),
{
    let env = factory_env_of(product);
    assert(env[0] == ("PRODUCT"@, product.ident()));
    assert(env[2] == ("RELEASE"@, "true"@));
    let s0 = "-C link-arg=-Tlinkall.x -C link-arg=-Tdefmt.x --remap-path-prefix="@;
    let s1 = paths.working_dir@ + "=wd/ --remap-path-prefix="@;
    let s2 = paths.cargo_home@ + "/registry/src=io/ --remap-path-prefix="@;
    let s3 = paths.cargo_home@ + "/git/checkouts=co/ --remap-path-prefix="@;
    let s4 = paths.rustup_home@ + "/toolchains/"@ + paths.rustup_toolchain@
        + "/lib/rustlib/src/rust/library=rl/ "@;
    let flags = release_flags_of(paths);
    assert(flags =~= s0 + s1 + (s2 + s3 + s4));
    lemma_occurs_within(s0, s1, s2 + s3 + s4);
    assert(flags =~= (s0 + s1) + s2 + (s3 + s4));
    lemma_occurs_within(s0 + s1, s2, s3 + s4);
    assert(flags =~= (s0 + s1 + s2) + s3 + s4);
    lemma_occurs_within(s0 + s1 + s2, s3, s4);
    assert(flags =~= (s0 + s1 + s2 + s3) + s4 + Seq::<char>::empty());
    lemma_occurs_within(s0 + s1 + s2 + s3, s4, Seq::empty());
}

/// The linter is told to mend what it finds, and to do so beside changes that are not committed,
/// exactly if it was asked to.
pub proof fn lemma_linter_options(fix: bool, allow_dirty: bool)
    ensures
        clippy_args_of(fix, allow_dirty)[0] == "clippy"@,
        clippy_args_of(fix, allow_dirty)[2] == TARGET@,
        fix ==> clippy_args_of(fix, allow_dirty)[4] == "--fix"@,
        allow_dirty ==> clippy_args_of(fix, allow_dirty).last() == "--allow-dirty"@,
        clippy_args_of(fix, allow_dirty).len() == 4 + (if fix {
            1int
        } else {
            0
        }) + (if allow_dirty {
            1int
        } else {
            0
        }),
{
}

/// A toolchain is selected by an argument that is a plus sign with anything behind it, and by no
/// other.
pub proof fn lemma_toolchain_argument(rest: Seq<char>, c: char)
    ensures
        selects_toolchain(seq![c] + rest) <==> c == '+',
        !selects_toolchain(Seq::empty()),
{
    assert((seq![c] + rest)[0] == c);
}

/// What is asked for is built, unless another product is connected; without it, what is connected.
/// Only of the latter it can be known that it boots its factory firmware.
pub proof fn lemma_selected_product(product: ProductId, connected: ProductId, factory: bool)
    ensures
        selected(Some(product), None) matches Ok((p, f)) && p == product && !f,
        selected(None, Some((connected, factory))) matches Ok((p, f)) && p == connected && f
            == factory,
        selected(Some(product), Some((connected, factory))) is Ok <==> connected == product,
        selected(Some(product), Some((product, factory))) matches Ok((p, f)) && p == product && !f,
{
}

/// Each product on a device goes by its name, and so does the one that runs on none.
pub proof fn lemma_names_of_products(product: ProductId, name: Seq<char>)
    ensures
        is_product_name(product.ident()),
        is_product_name("virt1-1-1"@),
        is_product_name(name) && name != "virt1-1-1"@ ==> name == ProductId::Bln1_2512_1.ident()
            || name == ProductId::Bln2_2512_1.ident(),
{
}

/// The file to flash comes last, after the options; the device info is 64 bytes, and comes into the
/// file that is named last.
pub proof fn lemma_flash_arguments(path: Seq<char>)
    ensures
        flash_args_of(path).len() == 7,
        flash_args_of(path)[0] == "flash"@,
        flash_args_of(path).last() == path,
        flash_args_of(path).contains("--chip=esp32c3"@),
        flash_args_of(path).contains("--bootloader=assets/boot_image/bootloader.bin"@),
        flash_args_of(path).contains("--partition-table=partitions.csv"@),
        flash_args_of(path).contains("--skip-update-check"@),
        flash_args_of(path).contains("--baud=4000000"@),
        read_info_args_of(path).len() == 7,
        read_info_args_of(path)[0] == "read-flash"@,
        read_info_args_of(path)[1] == "--chip"@,
        read_info_args_of(path)[2] == "esp32c3"@,
        read_info_args_of(path)[3] == "--skip-update-check"@,
        read_info_args_of(path)[4] == DEVICE_INFO_OFFSET@,
        read_info_args_of(path)[5] == "64"@,
        read_info_args_of(path).last() == path,
{
    let args = flash_args_of(path);
    assert(args[1] == "--chip=esp32c3"@);
    assert(args[2] == "--bootloader=assets/boot_image/bootloader.bin"@);
    assert(args[3] == "--partition-table=partitions.csv"@);
    assert(args[4] == "--skip-update-check"@);
    assert(args[5] == "--baud=4000000"@);
}

} // verus!
