//! Secure over-the-air firmware updates.

use vstd::prelude::*;

use crate::config::FirmwareVersion;
use crate::display::leds;
use crate::display::leds::LedStatus;
use crate::effects::{Effect, Effects};
use crate::net::ws_client;
use crate::net::ws_client::{WsClientError, WsClientNotify};
use crate::outside::crypto;
use crate::outside::documents;
use crate::outside::http;
use crate::proto::DeviceUpdate;
use crate::store::app_settings::info;
use crate::store::app_settings::session::SessionSettings;
use crate::store::firmware_signature;
use crate::store::firmware_signature::Verdict;
use crate::text;
use crate::time;
use crate::trace::Report;

verus! {

/// What the firmware updater is to do.
#[derive(Debug)]
pub enum OtaEvent {
    InitBootPartition,
    BootFromFactory,
    StartUpdate(DeviceUpdate),
    /// Start an update after a number of seconds.
    ScheduleUpdate(DeviceUpdate, u64),
}

/// Why an update failed.
#[derive(Debug, Copy, Clone, PartialEq, Eq, Structural)]
pub enum OtaError {
    UrlError,
    DnsError,
    HttpError,
    HttpReadError,
    Timeout,
    StatusCodeError(u16),
    HeaderMissingError,
    PartitionError,
    FlashWriteError,
    FlashReadError,
    HashMismatchError,
    SignatureMalformedError,
    SignatureVerificationError,
}

fn signal(event: OtaEvent, fx: &mut Effects)
    ensures
        final(fx)@ == old(fx)@.push(Effect::OtaCancel).push(Effect::OtaSignal(event)),
{
    cancel(fx);
    fx.push(Effect::OtaSignal(event));
}

pub fn init_boot_partition(fx: &mut Effects)
    ensures
        final(fx)@ == old(fx)@.push(Effect::OtaCancel).push(
            Effect::OtaSignal(OtaEvent::InitBootPartition),
        ),
{
    signal(OtaEvent::InitBootPartition, fx);
}

pub fn boot_from_factory(fx: &mut Effects)
    ensures
        final(fx)@ == old(fx)@.push(Effect::OtaCancel).push(
            Effect::OtaSignal(OtaEvent::BootFromFactory),
        ),
{
    signal(OtaEvent::BootFromFactory, fx);
}

pub fn cancel(fx: &mut Effects)
    ensures
        final(fx)@ == old(fx)@.push(Effect::OtaCancel),
{
    fx.push(Effect::OtaCancel);
}

/// Whether `after` is `before` with the update to `update` asked for.
pub open spec fn update_asked(
    before: Seq<Effect>,
    after: Seq<Effect>,
    update: DeviceUpdate,
) -> bool {
    exists|u: DeviceUpdate| #[trigger]
        u.same(update) && after == before.push(Effect::OtaCancel).push(
            Effect::OtaSignal(OtaEvent::StartUpdate(u)),
        )
}

/// Whether `after` is `before` with the update to `update` scheduled.
pub open spec fn update_scheduled(
    before: Seq<Effect>,
    after: Seq<Effect>,
    update: DeviceUpdate,
    delay_secs: u64,
) -> bool {
    exists|u: DeviceUpdate| #[trigger]
        u.same(update) && after == before.push(Effect::OtaCancel).push(
            Effect::OtaSignal(OtaEvent::ScheduleUpdate(u, delay_secs)),
        )
}

/// Starts an update, unless one is in progress.
pub fn start_firmware_update(update: &DeviceUpdate, session: &SessionSettings, fx: &mut Effects)
    ensures
        if session.updating_firmware {
            final(fx)@ == old(fx)@
        } else {
            update_asked(old(fx)@, final(fx)@, *update)
        },
{
    if session.updating_firmware {
        return;
    }
    let copy = update.duplicate();
    assert(copy.same(*update));
    signal(OtaEvent::StartUpdate(copy), fx);
}

/// Schedules an update, unless one is in progress or scheduled.
pub fn schedule_firmware_update(
    update: &DeviceUpdate,
    delay_secs: u64,
    session: &SessionSettings,
    fx: &mut Effects,
)
    ensures
        if session.updating_firmware || session.auto_update_scheduled_unix_timestamp is Some {
            final(fx)@ == old(fx)@
        } else {
            update_scheduled(old(fx)@, final(fx)@, *update, delay_secs)
        },
{
    if session.updating_firmware || session.auto_update_scheduled_unix_timestamp.is_some() {
        return;
    }
    let copy = update.duplicate();
    assert(copy.same(*update));
    signal(OtaEvent::ScheduleUpdate(copy, delay_secs), fx);
}

// ---------------------------------------------------------------------------------------------
// The boot partition
// ---------------------------------------------------------------------------------------------

/// The partition that the firmware runs from.
#[derive(Debug, Copy, Clone, PartialEq, Eq, Structural)]
pub enum AppPartition {
    Factory,
    Ota0,
    Ota1,
    /// Another one, which no firmware of this device runs from.
    Other,
}

/// How far the installation of an image has come.
#[derive(Debug, Copy, Clone, PartialEq, Eq, Structural)]
pub enum ImageState {
    New,
    PendingVerify,
    Valid,
    Invalid,
    Aborted,
    Undefined,
}

/// What was found out about the boot partition.
#[derive(Debug, Copy, Clone, PartialEq, Eq, Structural)]
pub struct InitBootPartitionResult {
    pub is_aborted: bool,
    pub is_factory: bool,
    /// Whether the image is to be marked as valid.
    pub mark_valid: bool,
}

/// Looks at the boot partition and the state of its image, `None` if that cannot be read. An image
/// that has booted for the first time is to be marked as valid.
pub fn init_current_partition(current_part: AppPartition, current_state: Option<ImageState>) -> (r:
    InitBootPartitionResult)
    ensures
        r.is_factory == (current_part == AppPartition::Factory),
        r.is_aborted == (current_state == Some(ImageState::Aborted)),
        r.mark_valid == (current_state == Some(ImageState::New) || current_state == Some(
            ImageState::PendingVerify,
        )),
{
    let mut r = InitBootPartitionResult { is_aborted: false, is_factory: false, mark_valid: false };
    if let Some(state) = current_state {
        if state == ImageState::New || state == ImageState::PendingVerify {
            r.mark_valid = true;
        }
        if state == ImageState::Aborted {
            r.is_aborted = true;
        }
    }
    if current_part == AppPartition::Factory {
        r.is_factory = true;
    }
    r
}

/// Notes what was found out about the boot partition.
pub fn on_boot_partition(
    result: &InitBootPartitionResult,
    session: &mut SessionSettings,
    fx: &mut Effects,
)
    ensures
        *final(session) == (SessionSettings {
            is_factory_firmware: result.is_factory,
            is_rolled_back_firmware: result.is_aborted,
            ..*old(session)
        }),
        final(fx)@ == old(fx)@.push(Effect::StoreDeviceInfo),
{
    session.is_factory_firmware = result.is_factory;
    session.is_rolled_back_firmware = result.is_aborted;
    info::store(fx);
}

/// Whether the image of the boot partition is to be marked as aborted, so that the device rolls back
/// at its next boot.
pub fn set_factory_boot_partition(current_part: AppPartition) -> (mark_aborted: bool)
    requires
        current_part != AppPartition::Other,
    ensures
        mark_aborted == (current_part != AppPartition::Factory),
{
    match current_part {
        AppPartition::Factory => false,
        _ => true,
    }
}

/// Has the device restart, by way of the connection to the server.
pub fn request_reboot(fx: &mut Effects)
    ensures
        final(fx)@ == old(fx)@.push(Effect::QuitWs(Err(WsClientError::Reboot))),
{
    ws_client::quit(Err(WsClientError::Reboot), fx);
}

// ---------------------------------------------------------------------------------------------
// Scheduled updates
// ---------------------------------------------------------------------------------------------

/// When an update starts that was scheduled at an uptime of `uptime_secs`.
pub open spec fn scheduled_at(session: SessionSettings, delay_secs: u64, uptime_secs: u32) -> u32 {
    ((time::wrapped_sum(session.unix_epoch_offset_secs, uptime_secs) + delay_secs) % 0x100000000)
        as u32
}

/// Notes when a scheduled update starts.
pub fn begin_schedule(
    delay_secs: u64,
    uptime_secs: u32,
    session: &mut SessionSettings,
    fx: &mut Effects,
)
    ensures
        *final(session) == (SessionSettings {
            auto_update_scheduled_unix_timestamp: Some(
                scheduled_at(*old(session), delay_secs, uptime_secs),
            ),
            ..*old(session)
        }),
        final(fx)@ == old(fx)@.push(Effect::Notify(WsClientNotify::Telemetry)),
{
    let now_unix: u32 = time::get_unix_timestamp_seconds(session, uptime_secs);
    let at: u128 = (now_unix as u128 + delay_secs as u128) % 0x100000000;
    session.auto_update_scheduled_unix_timestamp = Some(at as u32);
    ws_client::send_telemetry(fx);
}

/// Goes on after the delay of a scheduled update, or after it was canceled.
pub fn end_schedule(
    update: DeviceUpdate,
    canceled: bool,
    session: &mut SessionSettings,
    fx: &mut Effects,
)
    ensures
        *final(session) == (if canceled {
            SessionSettings { auto_update_scheduled_unix_timestamp: None, ..*old(session) }
        } else {
            *old(session)
        }),
        final(fx)@ == old(fx)@.push(
            if canceled {
                Effect::Notify(WsClientNotify::Telemetry)
            } else {
                Effect::OtaSignal(OtaEvent::StartUpdate(update))
            },
        ),
{
    if canceled {
        session.auto_update_scheduled_unix_timestamp = None;
        ws_client::send_telemetry(fx);
    } else {
        fx.push(Effect::OtaSignal(OtaEvent::StartUpdate(update)));
    }
}

// ---------------------------------------------------------------------------------------------
// The update
// ---------------------------------------------------------------------------------------------

/// Size in bytes of a partition for firmware.
pub const OTA_PARTITION_SIZE: usize = 0x14F000;

/// Size in bytes of the parts in which an image is written to flash.
pub const OTA_CHUNK_SIZE: usize = 0x1000;

/// Whether an update is to the version that is running.
pub open spec fn is_same_version(update: DeviceUpdate, version: FirmwareVersion) -> bool {
    update.firmware_version_major == version.major && update.firmware_version_minor == version.minor
        && update.firmware_version_patch == version.patch
}

/// Whether an update may start: to another version, or from a beta version, and to an image that fits
/// a partition.
pub open spec fn may_start(update: DeviceUpdate, version: FirmwareVersion) -> bool {
    (!is_same_version(update, version) || version.beta) && update.size_bytes <= OTA_PARTITION_SIZE
}

/// A session in which an update has started.
pub open spec fn updating(session: SessionSettings) -> SessionSettings {
    SessionSettings {
        updating_firmware: true,
        update_progress_percent: 0,
        update_speed_bytes_per_sec: 0,
        ..session
    }
}

/// What the start of an update asks for.
pub open spec fn start_effects(update: DeviceUpdate, version: FirmwareVersion) -> Seq<Effect> {
    if is_same_version(update, version) && !version.beta {
        seq![
            Effect::Report(
                Report::UpdateToSameVersion {
                    major: update.firmware_version_major,
                    minor: update.firmware_version_minor,
                    patch: update.firmware_version_patch,
                },
            ),
        ]
    } else if update.size_bytes > OTA_PARTITION_SIZE {
        seq![Effect::Report(Report::UpdateTooLarge { size_bytes: update.size_bytes })]
    } else {
        seq![
            Effect::Notify(WsClientNotify::Status),
            Effect::Notify(WsClientNotify::Telemetry),
        ] + leds::status_effects(LedStatus::UpdatingFirmware)
    }
}

/// Starts an update, if it may.
pub fn begin_update(
    update: &DeviceUpdate,
    version: &FirmwareVersion,
    session: &mut SessionSettings,
    fx: &mut Effects,
) -> (started: bool)
    ensures
        started == may_start(*update, *version),
        *final(session) == (if started {
            updating(*old(session))
        } else {
            *old(session)
        }),
        final(fx)@ == old(fx)@ + start_effects(*update, *version),
{
    if update.firmware_version_major == version.major && update.firmware_version_minor
        == version.minor && update.firmware_version_patch == version.patch && !version.beta {
        fx.push(
            Effect::Report(
                Report::UpdateToSameVersion {
                    major: update.firmware_version_major,
                    minor: update.firmware_version_minor,
                    patch: update.firmware_version_patch,
                },
            ),
        );
        assert(fx@ =~= old(fx)@ + start_effects(*update, *version));
        return false;
    }
    if update.size_bytes > OTA_PARTITION_SIZE as u32 {
        fx.push(Effect::Report(Report::UpdateTooLarge { size_bytes: update.size_bytes }));
        assert(fx@ =~= old(fx)@ + start_effects(*update, *version));
        return false;
    }
    session.updating_firmware = true;
    session.update_progress_percent = 0;
    session.update_speed_bytes_per_sec = 0;
    ws_client::send_status(fx);
    ws_client::send_telemetry(fx);
    leds::set_status(LedStatus::UpdatingFirmware, fx);
    assert(fx@ =~= old(fx)@ + start_effects(*update, *version));
    true
}

/// The host and the path of an image, if its URL can be read and is for a secure connection.
pub open spec fn source_of(parts: Option<(Seq<char>, Seq<char>, Seq<char>)>) -> Option<
    (Seq<char>, Seq<char>),
> {
    match parts {
        Some((scheme, host, path)) => if scheme == "https"@ {
            Some((host, path))
        } else {
            None
        },
        None => None,
    }
}

/// Whether `r` is the source of an image, or the error if there is none.
pub open spec fn is_source(
    r: Result<(String, String), OtaError>,
    parts: Option<(Seq<char>, Seq<char>, Seq<char>)>,
) -> bool {
    match r {
        Ok((host, path)) => source_of(parts) == Some((host@, path@)),
        Err(e) => e == OtaError::UrlError && source_of(parts) is None,
    }
}

/// The parts of a URL as plain values.
pub open spec fn parts_of(parts: Option<(String, String, String)>) -> Option<
    (Seq<char>, Seq<char>, Seq<char>),
> {
    match parts {
        Some((scheme, host, path)) => Some((scheme@, host@, path@)),
        None => None,
    }
}

/// Takes the source of an image from the parts of its URL, `None` if it cannot be read.
pub fn check_image_url(parts: Option<(String, String, String)>) -> (r: Result<
    (String, String),
    OtaError,
>)
    ensures
        is_source(r, parts_of(parts)),
{
    match parts {
        Some((scheme, host, path)) => {
            if text::same_text(scheme.as_str(), "https") {
                Ok((host, path))
            } else {
                Err(OtaError::UrlError)
            }
        },
        None => Err(OtaError::UrlError),
    }
}

/// The source of the image of an update.
pub fn image_source(update: &DeviceUpdate) -> (r: Result<(String, String), OtaError>)
    ensures
        is_source(r, documents::url_parts(update.image_url@)),
{
    let parts = documents::parse_url(update.image_url.as_str());
    assert(parts_of(parts) == documents::url_parts(update.image_url@));
    check_image_url(parts)
}

/// The headers of a request for an image.
pub fn image_headers(host: &str) -> (r: Vec<(String, String)>)
    ensures
        r@.len() == 2,
        http::is_header(r@[0], "Host"@, host@),
        http::is_header(r@[1], "Connection"@, "close"@),
{
    let mut r: Vec<(String, String)> = Vec::new();
    r.push(("Host".to_owned(), host.to_owned()));
    r.push(("Connection".to_owned(), "close".to_owned()));
    r
}

/// The length of the image that a response announces.
pub open spec fn announced_length(content_length: Option<&str>) -> Option<int> {
    match content_length {
        Some(s) => text::parsed(s@, usize::MAX as int),
        None => None,
    }
}

/// Checks the response to a request for an image, and takes the length of the image from it.
pub fn check_image_response(code: u16, content_length: Option<&str>, fx: &mut Effects) -> (r: Result<
    usize,
    OtaError,
>)
    ensures
        if code != 200 {
            &&& r == Err::<usize, _>(OtaError::StatusCodeError(code))
            &&& final(fx)@ == old(fx)@.push(Effect::Report(Report::ImageStatus { code }))
        } else {
            match announced_length(content_length) {
                None => {
                    &&& r == Err::<usize, _>(OtaError::HeaderMissingError)
                    &&& final(fx)@ == old(fx)@.push(Effect::Report(Report::ImageLengthMissing))
                },
                Some(n) if n > OTA_PARTITION_SIZE => {
                    &&& r == Err::<usize, _>(OtaError::PartitionError)
                    &&& final(fx)@ == old(fx)@.push(
                        Effect::Report(Report::ImageTooLarge { length: n as usize }),
                    )
                },
                Some(n) => {
                    &&& r == Ok::<_, OtaError>(n as usize)
                    &&& final(fx)@ == old(fx)@
                },
            }
        },
        r matches Ok(n) ==> n <= OTA_PARTITION_SIZE,
{
    if code != 200 {
        fx.push(Effect::Report(Report::ImageStatus { code }));
        return Err(OtaError::StatusCodeError(code));
    }
    let length: Option<u64> = match content_length {
        Some(s) => text::parse_number(s, usize::MAX as u64),
        None => None,
    };
    match length {
        Some(n) => {
            if n > OTA_PARTITION_SIZE as u64 {
                fx.push(Effect::Report(Report::ImageTooLarge { length: n as usize }));
                Err(OtaError::PartitionError)
            } else {
                Ok(n as usize)
            }
        },
        None => {
            fx.push(Effect::Report(Report::ImageLengthMissing));
            Err(OtaError::HeaderMissingError)
        },
    }
}

/// How many bytes of an image are there once `n` chunks of it are.
pub open spec fn bytes_after(total_length: int, n: int) -> int {
    if n * OTA_CHUNK_SIZE < total_length {
        n * OTA_CHUNK_SIZE
    } else {
        total_length
    }
}

/// How many bytes the next chunk of an image has, `None` if there is none.
pub open spec fn chunk_after(total_length: int, bytes_read: int) -> Option<int> {
    if bytes_read >= total_length {
        None
    } else if total_length - bytes_read < OTA_CHUNK_SIZE {
        Some(total_length - bytes_read)
    } else {
        Some(OTA_CHUNK_SIZE as int)
    }
}

/// How many bytes the next chunk of an image has, when it is received and when it is read back.
pub fn next_chunk(total_length: usize, bytes_read: usize) -> (r: Option<usize>)
    ensures
        match r {
            Some(n) => chunk_after(total_length as int, bytes_read as int) == Some(n as int),
            None => chunk_after(total_length as int, bytes_read as int) is None,
        },
{
    if bytes_read >= total_length {
        None
    } else if total_length - bytes_read < OTA_CHUNK_SIZE {
        Some(total_length - bytes_read)
    } else {
        Some(OTA_CHUNK_SIZE)
    }
}

/// Whether a chunk, which is written in full, fits in a partition.
pub fn chunk_fits(byte_offset: usize, partition_size: usize) -> (r: bool)
    ensures
        r == (byte_offset + OTA_CHUNK_SIZE <= partition_size),
{
    partition_size >= OTA_CHUNK_SIZE && byte_offset <= partition_size - OTA_CHUNK_SIZE
}

/// Chunk by chunk, an image is received as a whole and nothing more.
pub proof fn lemma_chunks_make_up_image(total_length: int, n: int)
    requires
        0 <= total_length,
        0 <= n,
    ensures
        match chunk_after(total_length, bytes_after(total_length, n)) {
            Some(size) => {
                &&& 0 < size <= OTA_CHUNK_SIZE
                &&& bytes_after(total_length, n) + size == bytes_after(total_length, n + 1)
            },
            None => bytes_after(total_length, n) == total_length,
        },
        bytes_after(total_length, 0) == 0,
        n >= total_length ==> bytes_after(total_length, n) == total_length,
{
}

/// No chunk of an image that fits a partition goes past the end of the partition.
pub proof fn lemma_chunks_fit(total_length: int, n: int)
    requires
        0 <= n,
        total_length <= OTA_PARTITION_SIZE,
        n * OTA_CHUNK_SIZE < total_length,
    ensures
        bytes_after(total_length, n) + OTA_CHUNK_SIZE <= OTA_PARTITION_SIZE,
{
}

/// Notes the progress of an update, when it has changed by a percent.
pub fn on_progress(
    percent: u8,
    speed_bytes_per_sec: u32,
    progress_percent: u8,
    session: &mut SessionSettings,
    fx: &mut Effects,
) -> (p: u8)
    ensures
        p == percent,
        *final(session) == (if percent != progress_percent {
            SessionSettings {
                update_progress_percent: percent,
                update_speed_bytes_per_sec: speed_bytes_per_sec,
                ..*old(session)
            }
        } else {
            *old(session)
        }),
        final(fx)@ == (if percent != progress_percent {
            old(fx)@.push(Effect::Notify(WsClientNotify::Telemetry))
        } else {
            old(fx)@
        }),
{
    if percent != progress_percent {
        session.update_progress_percent = percent;
        session.update_speed_bytes_per_sec = speed_bytes_per_sec;
        ws_client::send_telemetry(fx);
    }
    percent
}

/// Notes that an image is there as a whole.
pub fn on_downloaded(session: &mut SessionSettings, fx: &mut Effects)
    ensures
        *final(session) == (SessionSettings { update_progress_percent: 100, ..*old(session) }),
        final(fx)@ == old(fx)@.push(Effect::Notify(WsClientNotify::Telemetry)),
{
    session.update_progress_percent = 100;
    ws_client::send_telemetry(fx);
}

/// Whether bytes are the same.
fn same_bytes(a: &[u8], b: &[u8]) -> (r: bool)
    ensures
        r == (a@ == b@),
{
    if a.len() != b.len() {
        return false;
    }
    let mut i: usize = 0;
    while i < a.len()
        invariant
            i <= a@.len(),
            a@.len() == b@.len(),
            forall|j: int| 0 <= j < i ==> a@[j] == b@[j],
        decreases a@.len() - i,
    {
        if a[i] != b[i] {
            return false;
        }
        i = i + 1;
    }
    assert(a@ =~= b@);
    true
}

/// Checks that the image that was read back from flash has the hash that was promised.
pub fn check_image_hash(update: &DeviceUpdate, computed_hash: &[u8; 32], fx: &mut Effects) -> (r:
    Result<(), OtaError>)
    ensures
        if update.sha256_hash@ == computed_hash@ {
            &&& r == Ok::<(), OtaError>(())
            &&& final(fx)@ == old(fx)@
        } else {
            &&& r == Err::<(), _>(OtaError::HashMismatchError)
            &&& final(fx)@ == old(fx)@.push(Effect::Report(Report::ImageHashMismatch))
        },
{
    if !same_bytes(&update.sha256_hash, computed_hash) {
        fx.push(Effect::Report(Report::ImageHashMismatch));
        return Err(OtaError::HashMismatchError);
    }
    Ok(())
}

/// Decides by the verdict on its signature whether an image that was downloaded may be booted.
pub fn check_signature(verdict: Verdict, fx: &mut Effects) -> (r: Result<(), OtaError>)
    requires
        verdict != Verdict::KeyInvalid,
    ensures
        r == (match verdict {
            Verdict::Valid => Ok::<(), OtaError>(()),
            Verdict::Malformed => Err(OtaError::SignatureMalformedError),
            _ => Err(OtaError::SignatureVerificationError),
        }),
        final(fx)@ == (if verdict == Verdict::Mismatch {
            old(fx)@.push(Effect::Report(Report::SignatureInvalid))
        } else {
            old(fx)@
        }),
{
    match verdict {
        Verdict::Valid => Ok(()),
        Verdict::Malformed => Err(OtaError::SignatureMalformedError),
        _ => {
            fx.push(Effect::Report(Report::SignatureInvalid));
            Err(OtaError::SignatureVerificationError)
        },
    }
}

/// What a failed download asks for.
pub open spec fn failure_effects(cause: OtaError) -> Seq<Effect> {
    seq![
        Effect::Report(Report::UpdateFailed { cause }),
        Effect::Notify(WsClientNotify::Status),
        Effect::Notify(WsClientNotify::Telemetry),
    ] + leds::status_effects(LedStatus::UpdateFailed)
}

/// Gives up an update whose download failed.
pub fn on_download_failed(cause: OtaError, session: &mut SessionSettings, fx: &mut Effects)
    ensures
        *final(session) == (SessionSettings {
            updating_firmware: false,
            update_has_failed: true,
            ..*old(session)
        }),
        final(fx)@ == old(fx)@ + failure_effects(cause),
{
    fx.push(Effect::Report(Report::UpdateFailed { cause }));
    session.updating_firmware = false;
    session.update_has_failed = true;
    ws_client::send_status(fx);
    ws_client::send_telemetry(fx);
    leds::set_status(LedStatus::UpdateFailed, fx);
    assert(fx@ =~= old(fx)@ + failure_effects(cause));
}

/// Shows that the updater has failed.
pub fn on_client_error(cause: OtaError, fx: &mut Effects)
    ensures
        final(fx)@ == old(fx)@.push(Effect::Report(Report::OtaClientFailed { cause }))
            + leds::status_effects(LedStatus::UpdateFailed),
{
    fx.push(Effect::Report(Report::OtaClientFailed { cause }));
    leds::set_status(LedStatus::UpdateFailed, fx);
}

/// What an image went through before it is booted.
pub open spec fn may_boot(
    update: DeviceUpdate,
    version: FirmwareVersion,
    product: Seq<char>,
    public_key: Seq<u8>,
    flash_hash: Seq<u8>,
) -> bool {
    &&& may_start(update, version)
    &&& update.sha256_hash@ == flash_hash
    &&& firmware_signature::update_verdict(update, product, public_key) == Verdict::Valid
}

/// What follows on the download of an image.
#[derive(Debug, Copy, Clone, PartialEq, Eq, Structural)]
pub enum UpdateStep {
    /// Boot from the image.
    Activate,
    /// Go on with the firmware that runs.
    GiveUp(OtaError),
    /// End the updater.
    End(OtaError),
    /// The public key that comes with the firmware cannot be read: there is no way on.
    KeyInvalid,
}

/// What follows on a download that left a hash in flash, or failed.
pub open spec fn step_after(
    update: DeviceUpdate,
    product: Seq<char>,
    public_key: Seq<u8>,
    downloaded: Result<Seq<u8>, OtaError>,
) -> UpdateStep {
    match downloaded {
        Err(cause) => UpdateStep::GiveUp(cause),
        Ok(flash_hash) => if update.sha256_hash@ != flash_hash {
            UpdateStep::GiveUp(OtaError::HashMismatchError)
        } else {
            match firmware_signature::update_verdict(update, product, public_key) {
                Verdict::KeyInvalid => UpdateStep::KeyInvalid,
                Verdict::Malformed => UpdateStep::End(OtaError::SignatureMalformedError),
                Verdict::Mismatch => UpdateStep::End(OtaError::SignatureVerificationError),
                Verdict::Valid => UpdateStep::Activate,
            }
        },
    }
}

/// What the end of a download asks for.
pub open spec fn effects_after(downloaded: Result<Seq<u8>, OtaError>, step: UpdateStep) -> Seq<
    Effect,
> {
    match step {
        UpdateStep::GiveUp(cause) => (if downloaded is Ok {
            seq![Effect::Report(Report::ImageHashMismatch)]
        } else {
            seq![]
        }) + failure_effects(cause),
        UpdateStep::End(OtaError::SignatureVerificationError) => seq![
            Effect::Report(Report::SignatureInvalid),
        ],
        _ => seq![],
    }
}

/// The outcome of a download as plain values.
pub open spec fn outcome_of(downloaded: Result<[u8; 32], OtaError>) -> Result<Seq<u8>, OtaError> {
    match downloaded {
        Ok(flash_hash) => Ok(flash_hash@),
        Err(cause) => Err(cause),
    }
}

/// Decides what follows on a download, by the hash of what is in flash then. Of the updates that may
/// start, those are activated whose image may be booted, and no others.
pub fn after_download(
    update: &DeviceUpdate,
    product: &str,
    public_key: &[u8],
    downloaded: Result<[u8; 32], OtaError>,
    session: &mut SessionSettings,
    fx: &mut Effects,
) -> (step: UpdateStep)
    ensures
        step == step_after(*update, product@, public_key@, outcome_of(downloaded)),
        *final(session) == (if step is GiveUp {
            SessionSettings { updating_firmware: false, update_has_failed: true, ..*old(session) }
        } else {
            *old(session)
        }),
        final(fx)@ == old(fx)@ + effects_after(outcome_of(downloaded), step),
        forall|version: FirmwareVersion| #[trigger]
            may_start(*update, version) ==> (step == UpdateStep::Activate) == (
            outcome_of(downloaded) matches Ok(flash_hash) && may_boot(
                *update,
                version,
                product@,
                public_key@,
                flash_hash,
            )),
{
    let checked = match downloaded {
        Ok(flash_hash) => check_image_hash(update, &flash_hash, fx),
        Err(cause) => Err(cause),
    };
    match checked {
        Err(cause) => {
            on_download_failed(cause, session, fx);
            let step = UpdateStep::GiveUp(cause);
            assert(fx@ =~= old(fx)@ + effects_after(outcome_of(downloaded), step));
            step
        },
        Ok(()) => {
            let verdict = firmware_signature::verify_update(update, product, public_key);
            let step = match verdict {
                Verdict::KeyInvalid => UpdateStep::KeyInvalid,
                _ => match check_signature(verdict, fx) {
                    Ok(()) => UpdateStep::Activate,
                    Err(cause) => UpdateStep::End(cause),
                },
            };
            assert(fx@ =~= old(fx)@ + effects_after(outcome_of(downloaded), step));
            step
        },
    }
}

/// An image that may be booted was signed, for this product, with the hash of what is in flash: its
/// signature verifies for exactly that. If the signature verifies for another hash too, the messages
/// differ.
pub proof fn lemma_booted_image_was_signed(
    update: DeviceUpdate,
    version: FirmwareVersion,
    product: Seq<char>,
    public_key: Seq<u8>,
    flash_hash: Seq<u8>,
    other_hash: Seq<u8>,
    other_product: Seq<char>,
)
    requires
        may_boot(update, version, product, public_key, flash_hash),
        flash_hash.len() == firmware_signature::HASH_LEN,
        other_hash.len() == firmware_signature::HASH_LEN,
    ensures
        crypto::verifies(
            public_key,
            firmware_signature::message_of(
                update.firmware_version_major,
                update.firmware_version_minor,
                update.firmware_version_patch,
                update.size_bytes,
                flash_hash,
                product,
            ),
            update.p256_signature@,
        ),
        other_hash != flash_hash || other_product != product ==> firmware_signature::message_of(
            update.firmware_version_major,
            update.firmware_version_minor,
            update.firmware_version_patch,
            update.size_bytes,
            other_hash,
            other_product,
        ) != firmware_signature::update_message(update, product),
{
    let what = (
        update.firmware_version_major,
        update.firmware_version_minor,
        update.firmware_version_patch,
        update.size_bytes,
    );
    let (major, minor, patch, size) = what;
    if firmware_signature::message_of(major, minor, patch, size, other_hash, other_product)
        == firmware_signature::update_message(update, product) {
        firmware_signature::lemma_message_says_what_is_signed(
            what,
            other_hash,
            other_product,
            what,
            flash_hash,
            product,
        );
    }
}

/// An update may start exactly if its image is no larger than a partition and it is not to the very
/// version that runs, unless that is a beta version. If it may not, that is reported and nothing
/// else is asked for.
pub proof fn lemma_update_may_start(update: DeviceUpdate, version: FirmwareVersion)
    ensures
        ({
            let same = update.firmware_version_major == version.major
                && update.firmware_version_minor == version.minor && update.firmware_version_patch
                == version.patch;
            let fx = start_effects(update, version);
            &&& may_start(update, version) <==> update.size_bytes <= 0x14F000 && (!same
                || version.beta)
            &&& may_start(update, version) ==> {
                &&& fx[0] == Effect::Notify(WsClientNotify::Status)
                &&& fx[1] == Effect::Notify(WsClientNotify::Telemetry)
                &&& fx.skip(2) == leds::status_effects(LedStatus::UpdatingFirmware)
            }
            &&& !may_start(update, version) ==> fx.len() == 1 && (fx[0] matches Effect::Report(
                report,
            ) && (match report {
                Report::UpdateToSameVersion { major, minor, patch } => same && !version.beta && major
                    == version.major && minor == version.minor && patch == version.patch,
                Report::UpdateTooLarge { size_bytes } => size_bytes == update.size_bytes
                    && size_bytes > 0x14F000,
                _ => false,
            }))
        }),
{
    let fx = start_effects(update, version);
    if may_start(update, version) {
        assert(fx.skip(2) =~= leds::status_effects(LedStatus::UpdatingFirmware));
    }
}

/// A session in which an update starts has no progress yet, and is otherwise as it was.
pub proof fn lemma_updating(session: SessionSettings)
    ensures
        updating(session).updating_firmware,
        updating(session).update_progress_percent == 0,
        updating(session).update_speed_bytes_per_sec == 0,
        session == (SessionSettings {
            updating_firmware: session.updating_firmware,
            update_progress_percent: session.update_progress_percent,
            update_speed_bytes_per_sec: session.update_speed_bytes_per_sec,
            ..updating(session)
        }),
{
}

/// A scheduled update starts its delay after the Unix time at which it was scheduled.
pub proof fn lemma_scheduled_at(session: SessionSettings, delay_secs: u64, uptime_secs: u32)
    ensures
        (scheduled_at(session, delay_secs, uptime_secs) - session.unix_epoch_offset_secs
            - uptime_secs - delay_secs) % 0x1_0000_0000 == 0,
{
}

/// An image is taken from the host and the path of its URL, and only over a secure connection.
pub proof fn lemma_source_of_image(scheme: Seq<char>, host: Seq<char>, path: Seq<char>)
    ensures
        source_of(Some((scheme, host, path))) is Some <==> scheme == seq!['h', 't', 't', 'p', 's'],
        source_of(Some((scheme, host, path))) matches Some((h, p)) ==> h == host && p == path,
        source_of(None) is None,
{
    reveal_strlit("https");
    assert("https"@ =~= seq!['h', 't', 't', 'p', 's']);
}

/// An image is received in chunks of 4096 bytes, but for the last, which has what is left.
pub proof fn lemma_chunk_sizes(total_length: int, bytes_read: int)
    requires
        0 <= bytes_read,
    ensures
        chunk_after(total_length, bytes_read) is Some <==> bytes_read < total_length,
        chunk_after(total_length, bytes_read) matches Some(size) ==> {
            &&& bytes_read + size <= total_length
            &&& size == 4096 || bytes_read + size == total_length
            &&& 0 < size <= 4096
        },
{
}

/// Only an image that was downloaded, whose hash in flash is the promised one and whose signature
/// is valid is activated. A failed download and a wrong hash leave the firmware that runs, a wrong
/// signature ends the updater.
pub proof fn lemma_activated_image(
    update: DeviceUpdate,
    product: Seq<char>,
    public_key: Seq<u8>,
    downloaded: Result<Seq<u8>, OtaError>,
)
    ensures
        ({
            let step = step_after(update, product, public_key, downloaded);
            let verdict = firmware_signature::update_verdict(update, product, public_key);
            &&& step == UpdateStep::Activate <==> downloaded == Ok::<Seq<u8>, OtaError>(
                update.sha256_hash@,
            ) && verdict == Verdict::Valid
            &&& downloaded matches Err(cause) ==> step == UpdateStep::GiveUp(cause)
            &&& downloaded matches Ok(hash) ==> (hash != update.sha256_hash@ <==> step
                == UpdateStep::GiveUp(OtaError::HashMismatchError))
            &&& step == UpdateStep::End(OtaError::SignatureVerificationError) ==> verdict
                == Verdict::Mismatch
            &&& step == UpdateStep::End(OtaError::SignatureMalformedError) ==> verdict
                == Verdict::Malformed
            &&& step == UpdateStep::KeyInvalid ==> verdict == Verdict::KeyInvalid
        }),
{
}

/// A failed update is reported with its cause, told to the server and shown.
pub proof fn lemma_failure_effects(cause: OtaError)
    ensures
        failure_effects(cause)[0] == Effect::Report(Report::UpdateFailed { cause }),
        failure_effects(cause)[1] == Effect::Notify(WsClientNotify::Status),
        failure_effects(cause)[2] == Effect::Notify(WsClientNotify::Telemetry),
        failure_effects(cause).skip(3) == leds::status_effects(LedStatus::UpdateFailed),
{
    assert(failure_effects(cause).skip(3) =~= leds::status_effects(LedStatus::UpdateFailed));
}

/// The end of a download asks for what it comes to: giving up for what a failure asks for, after a
/// report of a wrong hash; a wrong signature for a report; and all else for nothing.
pub proof fn lemma_effects_after_download(downloaded: Result<Seq<u8>, OtaError>, step: UpdateStep)
    ensures
        ({
            let fx = effects_after(downloaded, step);
            match step {
                UpdateStep::GiveUp(cause) => {
                    &&& downloaded is Err ==> fx == failure_effects(cause)
                    &&& downloaded is Ok ==> fx[0] == Effect::Report(Report::ImageHashMismatch)
                        && fx.skip(1) == failure_effects(cause)
                },
                UpdateStep::End(cause) => {
                    &&& cause == OtaError::SignatureVerificationError ==> fx == seq![
                        Effect::Report(Report::SignatureInvalid),
                    ]
                    &&& cause != OtaError::SignatureVerificationError ==> fx.len() == 0
                },
                _ => fx.len() == 0,
            }
        }),
{
    let fx = effects_after(downloaded, step);
    if let UpdateStep::GiveUp(cause) = step {
        if downloaded is Ok {
            assert(fx.skip(1) =~= failure_effects(cause));
        } else {
            assert(fx =~= failure_effects(cause));
        }
    }
}

/// An image has a source exactly if its URL has a host and a path behind `https`; the only error is
/// one of the URL.
pub proof fn lemma_source_or_error(
    r: Result<(String, String), OtaError>,
    parts: Option<(Seq<char>, Seq<char>, Seq<char>)>,
)
    requires
        is_source(r, parts),
    ensures
        r is Ok <==> parts is Some && (parts->0).0 == "https"@,
        r matches Ok((host, path)) ==> host@ == (parts->0).1 && path@ == (parts->0).2,
        r matches Err(e) ==> e == OtaError::UrlError,
{
}

/// An update that is asked for, or scheduled, is one that says the same, after a cancellation of
/// what was scheduled before.
pub proof fn lemma_update_asked(
    before: Seq<Effect>,
    after: Seq<Effect>,
    update: DeviceUpdate,
    delay_secs: u64,
)
    ensures
        update_asked(before, after, update) ==> {
            &&& after.len() == before.len() + 2
            &&& after.take(before.len() as int) == before
            &&& after[before.len() as int] == Effect::OtaCancel
            &&& after.last() matches Effect::OtaSignal(OtaEvent::StartUpdate(u)) && u.same(update)
        },
        update_scheduled(before, after, update, delay_secs) ==> {
            &&& after.len() == before.len() + 2
            &&& after.take(before.len() as int) == before
            &&& after[before.len() as int] == Effect::OtaCancel
            &&& after.last() matches Effect::OtaSignal(OtaEvent::ScheduleUpdate(u, delay))
                && u.same(update) && delay == delay_secs
        },
{
    if update_asked(before, after, update) || update_scheduled(before, after, update, delay_secs) {
        assert(after.take(before.len() as int) =~= before);
    }
}

} // verus!
