//! Releases of firmware, and which firmware a device runs.

use vstd::prelude::*;

use crate::config::{Config, Product};
use crate::outside::crypto;
use crate::outside::documents;
use crate::proto::DeviceUpdate;
use crate::store::app_settings::info;
use crate::store::app_settings::info::DeviceInfo;
use crate::store::app_settings::session::SessionSettings;
use crate::store::firmware_signature;
use crate::store::firmware_signature::Verdict;
use crate::text;
use crate::tools::commands;
use crate::tools::commands::ProductId;
use crate::util;

verus! {

// ---------------------------------------------------------------------------------------------
// Versions
// ---------------------------------------------------------------------------------------------

/// Why a text is no version.
#[derive(Debug, Copy, Clone, PartialEq, Eq, Structural)]
pub enum VersionError {
    /// There are not three parts.
    Format,
    Major,
    Minor,
    Patch,
}

/// The version that a text stands for.
pub open spec fn version_of(version: Seq<char>) -> Result<(u32, u32, u32), VersionError> {
    let parts = text::split(version, '.');
    if parts.len() != 3 {
        Err(VersionError::Format)
    } else {
        match (
            text::parsed(parts[0], u32::MAX as int),
            text::parsed(parts[1], u32::MAX as int),
            text::parsed(parts[2], u32::MAX as int),
        ) {
            (None, _, _) => Err(VersionError::Major),
            (_, None, _) => Err(VersionError::Minor),
            (_, _, None) => Err(VersionError::Patch),
            (Some(major), Some(minor), Some(patch)) => Ok(
                (major as u32, minor as u32, patch as u32),
            ),
        }
    }
}

/// Reads a version.
pub fn parse_version_str(version: &str) -> (r: Result<(u32, u32, u32), VersionError>)
    ensures
        r == version_of(version@),
{
    let parts = text::split_text(version, '.');
    let ghost texts = text::split(version@, '.');
    assert(texts.len() == parts@.len());
    if parts.len() != 3 {
        return Err(VersionError::Format);
    }
    assert(texts[0] == parts@[0]@ && texts[1] == parts@[1]@ && texts[2] == parts@[2]@);
    let major = match text::parse_number(parts[0].as_str(), u32::MAX as u64) {
        Some(n) => n as u32,
        None => {
            return Err(VersionError::Major);
        },
    };
    let minor = match text::parse_number(parts[1].as_str(), u32::MAX as u64) {
        Some(n) => n as u32,
        None => {
            return Err(VersionError::Minor);
        },
    };
    let patch = match text::parse_number(parts[2].as_str(), u32::MAX as u64) {
        Some(n) => n as u32,
        None => {
            return Err(VersionError::Patch);
        },
    };
    Ok((major, minor, patch))
}

/// A version as text.
pub open spec fn version_text(major: u32, minor: u32, patch: u32) -> Seq<char> {
    text::decimal_text(major as nat) + seq!['.'] + text::decimal_text(minor as nat) + seq!['.']
        + text::decimal_text(patch as nat)
}

/// Writes a version.
pub fn format_version(major: u32, minor: u32, patch: u32) -> (s: String)
    ensures
        s@ == version_text(major, minor, patch),
{
    let mut s = String::new();
    text::append_number(&mut s, major as u64);
    s.push('.');
    text::append_number(&mut s, minor as u64);
    s.push('.');
    text::append_number(&mut s, patch as u64);
    assert(s@ =~= version_text(major, minor, patch));
    s
}

proof fn lemma_split_at_first(a: Seq<char>, c: char, rest: Seq<char>)
    requires
        forall|i: int| 0 <= i < a.len() ==> #[trigger] a[i] != c,
    ensures
        text::split(a + seq![c] + rest, c) == seq![a] + text::split(rest, c),
        text::split(a, c) == seq![a],
{
    let s = a + seq![c] + rest;
    text::lemma_position(s, c, 0);
    let p = text::position(s, c, 0);
    assert(s[a.len() as int] == c);
    assert(p == a.len()) by {
        if p < a.len() {
            assert(s[p as int] == a[p as int]);
        }
    }
    assert(s.take(p as int) =~= a);
    assert(s.skip((p + 1) as int) =~= rest);
    text::lemma_position(a, c, 0);
}

/// A version that is written down reads as the same version.
pub proof fn lemma_version_reads_back(major: u32, minor: u32, patch: u32)
    ensures
        version_of(version_text(major, minor, patch)) == Ok::<_, VersionError>(
            (major, minor, patch),
        ),
{
    let (a, b, c) = (
        text::decimal_text(major as nat),
        text::decimal_text(minor as nat),
        text::decimal_text(patch as nat),
    );
    text::lemma_number_reads_back(major as nat, u32::MAX as int);
    text::lemma_number_reads_back(minor as nat, u32::MAX as int);
    text::lemma_number_reads_back(patch as nat, u32::MAX as int);
    assert(forall|i: int| 0 <= i < a.len() ==> text::is_digit(#[trigger] a[i]));
    assert(forall|i: int| 0 <= i < b.len() ==> text::is_digit(#[trigger] b[i]));
    assert(forall|i: int| 0 <= i < c.len() ==> text::is_digit(#[trigger] c[i]));
    let tail = b + seq!['.'] + c;
    lemma_split_at_first(c, '.', Seq::empty());
    lemma_split_at_first(b, '.', c);
    lemma_split_at_first(a, '.', tail);
    assert(version_text(major, minor, patch) =~= a + seq!['.'] + tail);
    assert(text::split(version_text(major, minor, patch), '.') =~= seq![a, b, c]);
}

/// Why the version of a package is not known.
#[derive(Debug, Copy, Clone, PartialEq, Eq, Structural)]
pub enum ManifestError {
    /// The manifest cannot be read.
    Unreadable,
    /// There is no version in it.
    VersionMissing,
}

/// Whether `r` is the version found in a manifest, or the error if there is none.
pub open spec fn is_manifest_version(
    r: Result<String, ManifestError>,
    found: Option<Option<Seq<char>>>,
) -> bool {
    match found {
        Some(Some(version)) => r matches Ok(s) && s@ == version,
        Some(None) => r == Err::<String, _>(ManifestError::VersionMissing),
        None => r == Err::<String, _>(ManifestError::Unreadable),
    }
}

/// What was found in a manifest as a plain value.
pub open spec fn found_text(found: Option<Option<String>>) -> Option<Option<Seq<char>>> {
    match found {
        Some(Some(s)) => Some(Some(s@)),
        Some(None) => Some(None),
        None => None,
    }
}

/// Takes the version from what was found in a manifest.
pub fn check_manifest_version(found: Option<Option<String>>) -> (r: Result<String, ManifestError>)
    ensures
        is_manifest_version(r, found_text(found)),
{
    match found {
        Some(Some(version)) => Ok(version),
        Some(None) => Err(ManifestError::VersionMissing),
        None => Err(ManifestError::Unreadable),
    }
}

/// The version of the package that a manifest describes.
pub fn manifest_version(manifest: &str) -> (r: Result<String, ManifestError>)
    ensures
        is_manifest_version(r, documents::toml_text(manifest@, "package"@, "version"@)),
{
    let found = documents::toml_lookup(manifest, "package", "version");
    assert(found_text(found) == documents::toml_text(manifest@, "package"@, "version"@));
    check_manifest_version(found)
}

// ---------------------------------------------------------------------------------------------
// Releases
// ---------------------------------------------------------------------------------------------

/// Whether the path of the user's home directory is in a file.
pub fn holds_home_path(data: &[u8], home: &str) -> (r: bool)
    requires
        home@.len() > 0,
    ensures
        r == text::occurs(data@, vstd::utf8::encode_utf8(home@)),
{
    text::contains_bytes(data, home.as_bytes())
}

/// The files of a release.
#[derive(Debug, Copy, Clone, PartialEq, Eq, Structural)]
pub enum ReleaseFile {
    Elf,
    Image,
    Bootloader,
}

/// The first file of a release that the path of the user's home directory is in.
pub open spec fn home_path_place(
    elf: Seq<u8>,
    image: Seq<u8>,
    bootloader: Seq<u8>,
    home: Seq<char>,
) -> Option<ReleaseFile> {
    let path = vstd::utf8::encode_utf8(home);
    if text::occurs(elf, path) {
        Some(ReleaseFile::Elf)
    } else if text::occurs(image, path) {
        Some(ReleaseFile::Image)
    } else if text::occurs(bootloader, path) {
        Some(ReleaseFile::Bootloader)
    } else {
        None
    }
}

/// Finds the first file of a release that the path of the user's home directory is in. There is
/// none if and only if no file holds the path.
pub fn find_home_path(elf: &[u8], image: &[u8], bootloader: &[u8], home: &str) -> (r: Option<
    ReleaseFile,
>)
    requires
        home@.len() > 0,
    ensures
        r == home_path_place(elf@, image@, bootloader@, home@),
{
    if holds_home_path(elf, home) {
        Some(ReleaseFile::Elf)
    } else if holds_home_path(image, home) {
        Some(ReleaseFile::Image)
    } else if holds_home_path(bootloader, home) {
        Some(ReleaseFile::Bootloader)
    } else {
        None
    }
}

/// Why there is no release.
#[derive(Debug, Copy, Clone, PartialEq, Eq, Structural)]
pub enum ReleaseError {
    /// The version of the package is no version.
    Version(VersionError),
    /// The path of the user's home directory is in a file.
    HomePath(ReleaseFile),
    /// The private key cannot be read.
    PrivateKey,
    /// The image cannot be signed.
    Signing,
    /// The public key cannot be read.
    PublicKey,
    /// The signature does not verify with the public key.
    Verification,
}

/// What is published beside an image.
#[derive(Debug)]
pub struct OtaMetadata {
    pub product_id: String,
    pub version: String,
    pub built_at: String,
    pub size_bytes: usize,
    pub sha256_hash: String,
    pub p256_signature: String,
}

/// Bytes as text, in upper case.
pub open spec fn upper_text(bytes: Seq<u8>) -> Seq<char>
    decreases bytes.len(),
{
    if bytes.len() == 0 {
        Seq::empty()
    } else {
        upper_text(bytes.drop_last()) + util::hex_upper(bytes.last())
    }
}

/// Bytes as text, in upper case.
pub fn format_upper(bytes: &[u8]) -> (s: String)
    ensures
        s@ == upper_text(bytes@),
{
    let mut s = String::new();
    let mut i: usize = 0;
    assert(bytes@.take(0) =~= Seq::empty());
    while i < bytes.len()
        invariant
            i <= bytes@.len(),
            s@ == upper_text(bytes@.take(i as int)),
        decreases bytes@.len() - i,
    {
        util::append_hex_upper(&mut s, bytes[i]);
        i = i + 1;
        assert(bytes@.take(i as int).drop_last() =~= bytes@.take(i - 1));
    }
    assert(bytes@.take(i as int) =~= bytes@);
    s
}

/// Bytes that are written down read as the same bytes.
pub proof fn lemma_bytes_read_back(bytes: Seq<u8>)
    ensures
        crypto::is_hex_text(upper_text(bytes)),
        upper_text(bytes).len() == 2 * bytes.len(),
        crypto::hex_bytes(upper_text(bytes)) == bytes,
    decreases bytes.len(),
{
    if bytes.len() == 0 {
        assert(crypto::hex_bytes(upper_text(bytes)) =~= bytes);
    } else {
        let before = bytes.drop_last();
        let last = bytes.last();
        lemma_bytes_read_back(before);
        let (s, t) = (upper_text(before), upper_text(bytes));
        assert(t == s + util::hex_upper(last));
        assert forall|i: int| 0 <= i < t.len() implies crypto::is_hex_digit(#[trigger] t[i]) by {
            if i < s.len() {
                assert(t[i] == s[i]);
            }
        }
        assert forall|i: int| 0 <= i < bytes.len() implies #[trigger] crypto::hex_bytes(t)[i]
            == bytes[i] by {
            if i < before.len() {
                assert(t[2 * i] == s[2 * i] && t[2 * i + 1] == s[2 * i + 1]);
                assert(crypto::hex_bytes(s)[i] == before[i]);
            } else {
                assert(t[2 * i] == util::hex_upper(last)[0]);
                assert(t[2 * i + 1] == util::hex_upper(last)[1]);
            }
        }
        assert(crypto::hex_bytes(t) =~= bytes);
    }
}

/// The hash of an image.
pub open spec fn image_hash(image: Seq<u8>) -> Seq<u8> {
    crypto::hex_bytes(crypto::sha256_text(image))
}

/// The message that is signed for an image.
pub open spec fn release_message(version: (u32, u32, u32), image: Seq<u8>, product: ProductId) -> Seq<
    u8,
> {
    let (major, minor, patch) = version;
    firmware_signature::message_of(
        major,
        minor,
        patch,
        (image.len() % 0x100000000) as u32,
        image_hash(image),
        product.ident(),
    )
}

/// Why there is no signature that verifies, by what was found out on the way to it.
pub open spec fn signing_result(
    private_key_ok: bool,
    signature: Option<Seq<u8>>,
    public_key_ok: bool,
    verified: bool,
) -> Result<Seq<u8>, ReleaseError> {
    if !private_key_ok {
        Err(ReleaseError::PrivateKey)
    } else {
        match signature {
            None => Err(ReleaseError::Signing),
            Some(s) => if !public_key_ok {
                Err(ReleaseError::PublicKey)
            } else if !verified {
                Err(ReleaseError::Verification)
            } else {
                Ok(s)
            },
        }
    }
}

/// Whether `r` is a signature with the bytes of `expected`, or the same error.
pub open spec fn is_signing_result(
    r: Result<Vec<u8>, ReleaseError>,
    expected: Result<Seq<u8>, ReleaseError>,
) -> bool {
    match expected {
        Ok(bytes) => r matches Ok(s) && s@ == bytes,
        Err(e) => r == Err::<Vec<u8>, _>(e),
    }
}

/// Takes a signature, unless something on the way to it went wrong.
pub fn check_signing(
    private_key_ok: bool,
    signature: Option<Vec<u8>>,
    public_key_ok: bool,
    verified: bool,
) -> (r: Result<Vec<u8>, ReleaseError>)
    ensures
        is_signing_result(
            r,
            signing_result(
                private_key_ok,
                match signature {
                    Some(s) => Some(s@),
                    None => None,
                },
                public_key_ok,
                verified,
            ),
        ),
{
    if !private_key_ok {
        return Err(ReleaseError::PrivateKey);
    }
    match signature {
        None => Err(ReleaseError::Signing),
        Some(s) => {
            if !public_key_ok {
                Err(ReleaseError::PublicKey)
            } else if !verified {
                Err(ReleaseError::Verification)
            } else {
                Ok(s)
            }
        },
    }
}

/// The signature of a message, if the keys can be read and belong together.
pub open spec fn checked_signature(message: Seq<u8>, private_key: Seq<u8>, public_key: Seq<u8>) -> Result<
    Seq<u8>,
    ReleaseError,
> {
    let signature = crypto::signature_of(private_key, message);
    signing_result(
        crypto::is_private_key(private_key),
        signature,
        crypto::is_public_key(public_key),
        match signature {
            Some(s) => crypto::verifies(public_key, message, s),
            None => false,
        },
    )
}

/// Signs a message, and checks that the signature verifies.
pub fn sign_message(message: &[u8], private_key: &[u8], public_key: &[u8]) -> (r: Result<
    Vec<u8>,
    ReleaseError,
>)
    ensures
        is_signing_result(r, checked_signature(message@, private_key@, public_key@)),
        r matches Ok(s) ==> s@.len() == 64 && crypto::is_signature(s@),
{
    let private_key_ok = crypto::private_key_parses(private_key);
    let signature = crypto::sign(private_key, message);
    let public_key_ok = crypto::public_key_parses(public_key);
    let verified = match &signature {
        Some(s) => crypto::verify(public_key, message, s),
        None => false,
    };
    check_signing(private_key_ok, signature, public_key_ok, verified)
}

/// Whether metadata describes an image of a version for a product, with a signature.
pub open spec fn describes(
    metadata: OtaMetadata,
    product: ProductId,
    version: Seq<char>,
    built_at: Seq<char>,
    image: Seq<u8>,
    signature: Seq<u8>,
) -> bool {
    &&& metadata.product_id@ == product.ident()
    &&& metadata.version@ == version
    &&& metadata.built_at@ == built_at
    &&& metadata.size_bytes == image.len()
    &&& metadata.sha256_hash@ == crypto::sha256_text(image)
    &&& metadata.p256_signature@ == upper_text(signature)
}

/// Whether `r` is the metadata of an image, with the signature that the keys make, or why there is
/// none.
pub open spec fn is_metadata(
    r: Result<OtaMetadata, ReleaseError>,
    product: ProductId,
    version: Seq<char>,
    built_at: Seq<char>,
    image: Seq<u8>,
    private_key: Seq<u8>,
    public_key: Seq<u8>,
) -> bool {
    match version_of(version) {
        Err(e) => r == Err::<OtaMetadata, _>(ReleaseError::Version(e)),
        Ok(numbers) => match checked_signature(
            release_message(numbers, image, product),
            private_key,
            public_key,
        ) {
            Err(e) => r == Err::<OtaMetadata, _>(e),
            Ok(signature) => {
                &&& r matches Ok(metadata)
                &&& describes(metadata, product, version, built_at, image, signature)
                &&& signature.len() == 64
                &&& crypto::is_signature(signature)
                &&& image_hash(image).len() == firmware_signature::HASH_LEN
            },
        },
    }
}

/// Makes the metadata of an image: its hash, and a signature that was checked.
pub fn make_metadata(
    product: ProductId,
    version: &str,
    built_at: &str,
    image: &[u8],
    private_key: &[u8],
    public_key: &[u8],
) -> (r: Result<OtaMetadata, ReleaseError>)
    ensures
        is_metadata(r, product, version@, built_at@, image@, private_key@, public_key@),
{
    let (major, minor, patch) = match parse_version_str(version) {
        Ok(numbers) => numbers,
        Err(e) => {
            return Err(ReleaseError::Version(e));
        },
    };
    let sha256_hash = crypto::sha256_digest(image);
    let hash = crypto::hex_decode(sha256_hash.as_str()).unwrap();
    let size_bytes: u32 = (image.len() as u64 % 0x100000000) as u32;
    let message = firmware_signature::signed_message(
        major,
        minor,
        patch,
        size_bytes,
        &hash,
        product.to_str(),
    );
    let signature = match sign_message(&message, private_key, public_key) {
        Ok(s) => s,
        Err(e) => {
            return Err(e);
        },
    };
    let p256_signature = format_upper(&signature);
    Ok(
        OtaMetadata {
            product_id: product.to_str().to_owned(),
            version: version.to_owned(),
            built_at: built_at.to_owned(),
            size_bytes: image.len(),
            sha256_hash,
            p256_signature,
        },
    )
}

/// Makes the metadata of a release, if its version can be read and no file of it holds the path of
/// the user's home directory.
pub fn make_release(
    product: ProductId,
    version: &str,
    built_at: &str,
    elf: &[u8],
    image: &[u8],
    bootloader: &[u8],
    home: &str,
    private_key: &[u8],
    public_key: &[u8],
) -> (r: Result<OtaMetadata, ReleaseError>)
    requires
        home@.len() > 0,
    ensures
        match (version_of(version@), home_path_place(elf@, image@, bootloader@, home@)) {
            (Ok(_), Some(file)) => r == Err::<OtaMetadata, _>(ReleaseError::HomePath(file)),
            _ => is_metadata(r, product, version@, built_at@, image@, private_key@, public_key@),
        },
        r is Ok ==> {
            let path = vstd::utf8::encode_utf8(home@);
            &&& !text::occurs(elf@, path)
            &&& !text::occurs(image@, path)
            &&& !text::occurs(bootloader@, path)
        },
{
    if let Err(e) = parse_version_str(version) {
        return Err(ReleaseError::Version(e));
    }
    if let Some(file) = find_home_path(elf, image, bootloader, home) {
        return Err(ReleaseError::HomePath(file));
    }
    make_metadata(product, version, built_at, image, private_key, public_key)
}

/// Whether an update is the one that metadata describes.
pub open spec fn is_update_of(update: DeviceUpdate, metadata: OtaMetadata) -> bool {
    &&& version_of(metadata.version@) == Ok::<_, VersionError>(
        (
            update.firmware_version_major,
            update.firmware_version_minor,
            update.firmware_version_patch,
        ),
    )
    &&& update.size_bytes == metadata.size_bytes
    &&& update.sha256_hash@ == crypto::hex_bytes(metadata.sha256_hash@)
    &&& update.p256_signature@ == crypto::hex_bytes(metadata.p256_signature@)
}

/// The product on the device that a release is for.
pub open spec fn device_product(product: ProductId) -> Product {
    match product {
        ProductId::Bln1_2512_1 => Product::Bln1_2512_1,
        ProductId::Bln2_2512_1 => Product::Bln2_2512_1,
    }
}

/// What was released is accepted: a device of the product, with the public key that the release was
/// checked with, finds the signature of the update valid, and expects the hash of the image.
pub proof fn lemma_release_is_accepted(
    product: ProductId,
    numbers: (u32, u32, u32),
    built_at: Seq<char>,
    image: Seq<u8>,
    private_key: Seq<u8>,
    public_key: Seq<u8>,
    signature: Seq<u8>,
    metadata: OtaMetadata,
    update: DeviceUpdate,
)
    requires
        version_of(metadata.version@) == Ok::<_, VersionError>(numbers),
        checked_signature(release_message(numbers, image, product), private_key, public_key) == Ok::<
            _,
            ReleaseError,
        >(signature),
        crypto::is_signature(signature),
        describes(metadata, product, metadata.version@, built_at, image, signature),
        is_update_of(update, metadata),
    ensures
        firmware_signature::update_verdict(update, device_product(product).ident(), public_key)
            == Verdict::Valid,
        update.sha256_hash@ == image_hash(image),
        update.size_bytes == image.len(),
{
    lemma_bytes_read_back(signature);
}

// ---------------------------------------------------------------------------------------------
// Devices
// ---------------------------------------------------------------------------------------------

/// Why a device is not known.
#[derive(Debug, Copy, Clone, PartialEq, Eq, Structural)]
pub enum DetectError {
    /// What was read is no device info.
    Magic,
    /// The product is not known.
    UnknownProduct,
}

/// Whether `r` is what device info says: the product, the version of the firmware, and whether it is
/// the factory firmware.
pub open spec fn is_detected(r: Result<(ProductId, String, bool), DetectError>, info: DeviceInfo) -> bool {
    if info.magic != info::DEVICE_INFO_MAGIC {
        r == Err::<(ProductId, String, bool), _>(DetectError::Magic)
    } else if info.product_id@ != ProductId::Bln1_2512_1.ident() && info.product_id@
        != ProductId::Bln2_2512_1.ident() {
        r == Err::<(ProductId, String, bool), _>(DetectError::UnknownProduct)
    } else {
        &&& r matches Ok((product, version, is_factory))
        &&& product.ident() == info.product_id@
        &&& version@ == version_text(
            info.firmware.version_major,
            info.firmware.version_minor,
            info.firmware.version_patch,
        )
        &&& is_factory == info.firmware.is_factory
    }
}

/// Tells which device is connected, by its device info.
pub fn detect_connected_device(info: &DeviceInfo) -> (r: Result<
    (ProductId, String, bool),
    DetectError,
>)
    ensures
        is_detected(r, *info),
{
    if info.magic != info::DEVICE_INFO_MAGIC {
        return Err(DetectError::Magic);
    }
    let product = match ProductId::from_str(info.product_id.as_str()) {
        Some(product) => product,
        None => {
            return Err(DetectError::UnknownProduct);
        },
    };
    let version = format_version(
        info.firmware.version_major,
        info.firmware.version_minor,
        info.firmware.version_patch,
    );
    Ok((product, version, info.firmware.is_factory))
}

/// A device is told by the info that it wrote: its product, the version that it runs, and whether
/// that is its factory firmware.
pub proof fn lemma_device_is_detected(
    config: Config,
    session: SessionSettings,
    info: DeviceInfo,
    product: ProductId,
    r: Result<(ProductId, String, bool), DetectError>,
)
    requires
        info.magic == info::DEVICE_INFO_MAGIC,
        info.product_id@ == config.product.ident(),
        info.firmware == info::firmware_info(config, session),
        config.product == device_product(product),
        is_detected(r, info),
    ensures
        r matches Ok((detected, version, is_factory)) && detected == product && version_of(version@)
            == Ok::<_, VersionError>(
            (config.fw_version.major, config.fw_version.minor, config.fw_version.patch),
        ) && is_factory == session.is_factory_firmware,
{
    commands::lemma_products_differ();
    lemma_version_reads_back(
        config.fw_version.major,
        config.fw_version.minor,
        config.fw_version.patch,
    );
    if let Ok((detected, _, _)) = r {
        assert(detected.ident() == product.ident());
    }
}

/// Three numbers with points between them are a version; the first part that is no number is named.
pub proof fn lemma_version_parts(a: Seq<char>, b: Seq<char>, c: Seq<char>)
    requires
        !a.contains('.'),
        !b.contains('.'),
        !c.contains('.'),
    ensures
        ({
            let (major, minor, patch) = (
                text::parsed(a, u32::MAX as int),
                text::parsed(b, u32::MAX as int),
                text::parsed(c, u32::MAX as int),
            );
            let r = version_of(a + seq!['.'] + (b + seq!['.'] + c));
            &&& r matches Ok((x, y, z)) ==> major == Some(x as int) && minor == Some(y as int)
                && patch == Some(z as int)
            &&& r is Ok <==> major is Some && minor is Some && patch is Some
            &&& r == Err::<(u32, u32, u32), _>(VersionError::Major) <==> major is None
            &&& r == Err::<(u32, u32, u32), _>(VersionError::Minor) <==> major is Some && minor
                is None
            &&& r == Err::<(u32, u32, u32), _>(VersionError::Patch) <==> major is Some && minor
                is Some && patch is None
        }),
        version_of(a) == Err::<(u32, u32, u32), _>(VersionError::Format),
        version_of(a + seq!['.'] + b) == Err::<(u32, u32, u32), _>(VersionError::Format),
{
    text::lemma_parsed_in_range(a, u32::MAX as int);
    text::lemma_parsed_in_range(b, u32::MAX as int);
    text::lemma_parsed_in_range(c, u32::MAX as int);
    text::lemma_split_at_first(c, Seq::empty(), '.');
    text::lemma_split_at_first(b, c, '.');
    text::lemma_split_at_first(a, b, '.');
    text::lemma_split_at_first(a, b + seq!['.'] + c, '.');
    assert(text::split(a + seq!['.'] + (b + seq!['.'] + c), '.') =~= seq![a, b, c]);
    assert(text::split(a + seq!['.'] + b, '.') =~= seq![a, b]);
}

/// A release is found to hold the path of the home directory exactly if one of its files does, and
/// the file named is one that does.
pub proof fn lemma_home_path_is_found(
    elf: Seq<u8>,
    image: Seq<u8>,
    bootloader: Seq<u8>,
    home: Seq<char>,
)
    ensures
        ({
            let path = vstd::utf8::encode_utf8(home);
            let holds = |file: Seq<u8>|
                exists|i: int|
                    0 <= i <= file.len() - path.len() && #[trigger] file.subrange(i, i + path.len())
                        == path;
            match home_path_place(elf, image, bootloader, home) {
                Some(ReleaseFile::Elf) => holds(elf),
                Some(ReleaseFile::Image) => holds(image),
                Some(ReleaseFile::Bootloader) => holds(bootloader),
                None => !holds(elf) && !holds(image) && !holds(bootloader),
            }
        }),
{
    let path = vstd::utf8::encode_utf8(home);
    lemma_occurs_somewhere(elf, path);
    lemma_occurs_somewhere(image, path);
    lemma_occurs_somewhere(bootloader, path);
}

proof fn lemma_occurs_somewhere(file: Seq<u8>, path: Seq<u8>)
    ensures
        text::occurs(file, path) <==> exists|i: int|
            0 <= i <= file.len() - path.len() && #[trigger] file.subrange(i, i + path.len())
                == path,
{
    if text::occurs(file, path) {
        let i = choose|i: int| text::is_at(file, path, i);
        assert(file.subrange(i, i + path.len()) == path);
    }
    if exists|i: int|
        0 <= i <= file.len() - path.len() && #[trigger] file.subrange(i, i + path.len()) == path {
        let i = choose|i: int|
            0 <= i <= file.len() - path.len() && #[trigger] file.subrange(i, i + path.len())
                == path;
        assert(text::is_at(file, path, i));
    }
}

/// A signature comes of a signing only if both keys could be read and the signature verified, and is
/// the one that was made. What went wrong first is named.
pub proof fn lemma_signing(
    private_key_ok: bool,
    signature: Option<Seq<u8>>,
    public_key_ok: bool,
    verified: bool,
)
    ensures
        ({
            let r = signing_result(private_key_ok, signature, public_key_ok, verified);
            &&& r is Ok <==> private_key_ok && signature is Some && public_key_ok && verified
            &&& r matches Ok(s) ==> signature == Some(s)
            &&& r == Err::<Seq<u8>, _>(ReleaseError::PrivateKey) <==> !private_key_ok
            &&& r == Err::<Seq<u8>, _>(ReleaseError::Signing) <==> private_key_ok && signature
                is None
            &&& r == Err::<Seq<u8>, _>(ReleaseError::PublicKey) <==> private_key_ok && signature
                is Some && !public_key_ok
            &&& r == Err::<Seq<u8>, _>(ReleaseError::Verification) <==> private_key_ok && signature
                is Some && public_key_ok && !verified
        }),
{
}

/// A signature that was checked verifies with the public key, for the message that it was made for.
pub proof fn lemma_checked_signature_verifies(
    message: Seq<u8>,
    private_key: Seq<u8>,
    public_key: Seq<u8>,
)
    ensures
        checked_signature(message, private_key, public_key) matches Ok(s) ==> {
            &&& crypto::verifies(public_key, message, s)
            &&& crypto::signature_of(private_key, message) == Some(s)
            &&& crypto::is_private_key(private_key)
            &&& crypto::is_public_key(public_key)
        },
{
}

/// What is signed for an image is its version, its size, its hash and its product.
pub proof fn lemma_release_message(
    major: u32,
    minor: u32,
    patch: u32,
    image: Seq<u8>,
    product: ProductId,
)
    requires
        image.len() <= u32::MAX,
    ensures
        release_message((major, minor, patch), image, product) == firmware_signature::message_of(
            major,
            minor,
            patch,
            image.len() as u32,
            crypto::hex_bytes(crypto::sha256_text(image)),
            product.ident(),
        ),
{
}

/// The version of a manifest is the one in it; of the errors, one is for a manifest without a
/// version and the other for what is no manifest.
pub proof fn lemma_version_in_manifest(
    r: Result<String, ManifestError>,
    found: Option<Option<String>>,
)
    requires
        is_manifest_version(r, found_text(found)),
    ensures
        found matches Some(Some(version)) ==> (r matches Ok(s) && s@ == version@),
        found matches Some(None) ==> (r matches Err(e) && e == ManifestError::VersionMissing),
        found is None ==> (r matches Err(e) && e == ManifestError::Unreadable),
{
}

/// What is signed comes back as it is, and an error as that error.
pub proof fn lemma_signature_comes_back(
    r: Result<Vec<u8>, ReleaseError>,
    expected: Result<Seq<u8>, ReleaseError>,
)
    requires
        is_signing_result(r, expected),
    ensures
        r is Ok <==> expected is Ok,
        r is Ok ==> r->Ok_0@ == expected->Ok_0,
        r is Err ==> r->Err_0 == expected->Err_0,
{
}

/// The metadata of a release name its product and version, when it was built, and the size of the
/// image, and hold a signature of 64 bytes, as two digits each. There are none for what is no
/// version.
pub proof fn lemma_metadata_of_release(
    r: Result<OtaMetadata, ReleaseError>,
    product: ProductId,
    version: Seq<char>,
    built_at: Seq<char>,
    image: Seq<u8>,
    private_key: Seq<u8>,
    public_key: Seq<u8>,
)
    requires
        is_metadata(r, product, version, built_at, image, private_key, public_key),
    ensures
        r matches Ok(m) ==> {
            &&& version_of(version) is Ok
            &&& m.product_id@ == product.ident()
            &&& m.version@ == version
            &&& m.built_at@ == built_at
            &&& m.size_bytes == image.len()
            &&& m.sha256_hash@ == crypto::sha256_text(image)
            &&& m.p256_signature@.len() == 128
        },
        version_of(version) matches Err(e) ==> (r matches Err(f) && f == ReleaseError::Version(e)),
{
    if r is Ok {
        let numbers = version_of(version)->Ok_0;
        let signature = checked_signature(
            release_message(numbers, image, product),
            private_key,
            public_key,
        )->Ok_0;
        lemma_bytes_read_back(signature);
    }
}

} // verus!
