//! Device error reporting.

use vstd::prelude::*;

use crate::display::path_find::PathFindError;
use crate::effects::{Effect, Effects};
use crate::net::ws_client;
use crate::net::ws_client::{WsClientError, WsClientNotify};
use crate::outside::bounded;
use crate::outside::bounded::ErrorList;
use crate::proto::{DeviceError, DeviceErrorType};
use crate::store::ota::OtaError;

verus! {

/// Two locations, and the coordinates that they stand for.
#[derive(Debug, Copy, Clone, PartialEq, Eq, Structural)]
pub struct Route {
    pub from_loc_id: u16,
    pub from_latitude_e7: i32,
    pub from_longitude_e7: i32,
    pub to_loc_id: u16,
    pub to_latitude_e7: i32,
    pub to_longitude_e7: i32,
}

/// Something that went wrong, with what is known of it.
#[derive(Debug, Copy, Clone, PartialEq, Eq, Structural)]
pub enum Report {
    /// What was read from flash is not settings.
    SettingsMagicInvalid { magic: u32 },
    /// An update was to start, but there is none.
    UpdateCommandWithoutUpdate,
    /// An update is to the version that is installed.
    UpdateToSameVersion { major: u32, minor: u32, patch: u32 },
    /// An update does not fit its partition.
    UpdateTooLarge { size_bytes: u32 },
    /// An update failed.
    UpdateFailed { cause: OtaError },
    /// The firmware updater ended.
    OtaClientFailed { cause: OtaError },
    /// The image of an update came with another status than "OK".
    ImageStatus { code: u16 },
    /// The image of an update is announced as larger than its partition.
    ImageTooLarge { length: usize },
    /// The size of the image of an update is not announced.
    ImageLengthMissing,
    /// The image of an update is not the one that was signed.
    ImageHashMismatch,
    /// The signature of an update is not valid.
    SignatureInvalid,
    /// The server does not take the token.
    WsAuthFailed,
    /// The connection to the server failed.
    WsConnectionFailed { reason: WsClientError },
    /// The server speaks another version of the protocol.
    WsVersionMismatch { version: u32 },
    /// The server sent a frame that is not supported.
    WsFrameUnsupported,
    /// The server sent part of a frame.
    WsFrameNotFinal,
    /// The server sent a message that is not for devices.
    WsPayloadUnhandled,
    /// A station has no location near it.
    StopWithoutLocation { stop_idx: usize, latitude_e7: i32, longitude_e7: i32 },
    /// The nearest location to a station is too far away.
    StopTooFarFromLocation {
        stop_idx: usize,
        latitude_e7: i32,
        longitude_e7: i32,
        loc_id: u16,
        loc_latitude_e7: i32,
        loc_longitude_e7: i32,
    },
    /// A location has the number that stands for none.
    LocationIdInvalid { loc_id: u16, stop_idx: usize, latitude_e7: i32, longitude_e7: i32 },
    /// A vehicle comes from a stop that there is not.
    VehicleFromStopInvalid { vehicle_idx: usize, stop_id: u32 },
    /// A vehicle goes to a stop that there is not.
    VehicleToStopInvalid { vehicle_idx: usize, stop_id: u32 },
    /// A vehicle passes a stop that there is not.
    VehicleViaStopInvalid { vehicle_idx: usize, stop_id: u32 },
    /// A vehicle is on a line that there is not.
    VehicleLineInvalid { vehicle_idx: usize, line_id: u32 },
    /// A vehicle is on a line without a configuration.
    VehicleLineWithoutConfig { vehicle_idx: usize, line_id: u32 },
    /// A vehicle comes from a stop that has no location.
    VehicleFromStopUnmapped {
        vehicle_idx: usize,
        line_id: u32,
        stop_id: u32,
        latitude_e7: i32,
        longitude_e7: i32,
    },
    /// A vehicle goes to a stop that has no location.
    VehicleToStopUnmapped {
        vehicle_idx: usize,
        line_id: u32,
        stop_id: u32,
        latitude_e7: i32,
        longitude_e7: i32,
    },
    /// There is no path between the locations of a vehicle's stops.
    VehicleWithoutPath { vehicle_idx: usize, line_id: u32, route: Route, error: PathFindError },
    /// A vehicle is at a pixel with the number that stands for none.
    VehiclePixelInvalid { vehicle_idx: usize, line_id: u32, route: Route },
    /// A disruption is on a line that there is not.
    DisruptionLineInvalid { disruption_idx: usize, line_id: u32 },
    /// A disruption is on a line without a configuration.
    DisruptionLineWithoutConfig { disruption_idx: usize, line_id: u32 },
    /// A disruption begins at a stop that has no location.
    DisruptionFromStopInvalid { disruption_idx: usize, stop: u16 },
    /// A disruption ends at a stop that has no location.
    DisruptionToStopInvalid { disruption_idx: usize, stop: u16 },
    /// There is no path from the begin of a disruption to its end.
    DisruptionWithoutPath { disruption_idx: usize, route: Route, error: PathFindError },
    /// There is no path from the end of a disruption to its begin.
    DisruptionWithoutReversePath { disruption_idx: usize, route: Route, error: PathFindError },
    /// A disruption at one stop has no direction.
    DisruptionWithoutDirection { disruption_idx: usize },
    /// The direction of a disruption is a stop that has no location.
    DisruptionDirectionStopInvalid { disruption_idx: usize, stop: u16 },
    /// There is no path in the direction of a disruption.
    DisruptionWithoutDirectedPath { disruption_idx: usize, route: Route, error: PathFindError },
}

/// Most errors that are logged before they are sent.
pub const MAX_NUM_ERRORS: usize = 4;

/// Errors that are to be sent.
pub struct ErrorLog {
    list: ErrorList,
}

impl View for ErrorLog {
    type V = Seq<DeviceError>;

    closed spec fn view(&self) -> Seq<DeviceError> {
        bounded::errors_of(self.list)
    }
}

/// The log after an error: one more, unless it is full.
pub open spec fn logged(log: Seq<DeviceError>, error: DeviceError) -> Seq<DeviceError> {
    if log.len() < MAX_NUM_ERRORS {
        log.push(error)
    } else {
        log
    }
}

fn duplicate_error(e: &DeviceError) -> (r: DeviceError)
    ensures
        r == *e,
{
    DeviceError {
        error_type: e.error_type,
        instant_milliseconds: e.instant_milliseconds,
        message: e.message.clone(),
        file_name: e.file_name.clone(),
        line_number: e.line_number,
        column_number: e.column_number,
        unix_timestamp: e.unix_timestamp,
    }
}

impl ErrorLog {
    pub fn new() -> (log: Self)
        ensures
            log@ == Seq::<DeviceError>::empty(),
    {
        ErrorLog { list: ErrorList::new() }
    }

    /// The errors in the log.
    pub fn get_errors(&self) -> (r: Vec<DeviceError>)
        ensures
            r@ == self@,
            r@.len() <= MAX_NUM_ERRORS,
    {
        let n: usize = self.list.len();
        let mut r: Vec<DeviceError> = Vec::new();
        let mut i: usize = 0;
        while i < n
            invariant
                i <= n == self@.len(),
                r@ == self@.take(i as int),
            decreases n - i,
        {
            r.push(duplicate_error(self.list.at(i)));
            i = i + 1;
            assert(self@.take(i as int) =~= self@.take(i - 1).push(self@[i - 1]));
        }
        assert(self@.take(n as int) =~= self@);
        r
    }

    /// Forgets all errors.
    pub fn clear_errors(&mut self)
        ensures
            final(self)@ == Seq::<DeviceError>::empty(),
    {
        self.list.clear();
    }

    /// Logs an error. It is dropped without a word if the log is full.
    pub fn add_error(&mut self, error: DeviceError)
        ensures
            final(self)@ == logged(old(self)@, error),
    {
        let _ = self.list.push(error);
    }

    /// Logs an error that happens now.
    pub fn report_error(
        &mut self,
        err_type: DeviceErrorType,
        message: String,
        file_name: String,
        line_number: u32,
        column_number: u32,
        now_instant_ms: u32,
    )
        ensures
            final(self)@ == logged(
                old(self)@,
                DeviceError {
                    error_type: err_type,
                    instant_milliseconds: now_instant_ms,
                    message,
                    file_name,
                    line_number,
                    column_number,
                    unix_timestamp: 0,
                },
            ),
    {
        self.add_error(
            DeviceError {
                error_type: err_type,
                instant_milliseconds: now_instant_ms,
                message,
                file_name,
                line_number,
                column_number,
                unix_timestamp: 0,
            },
        );
    }

    /// Has the errors sent, if there are any.
    pub fn flush_errors(&self, fx: &mut Effects)
        ensures
            final(fx)@ == (if self@.len() > 0 {
                old(fx)@.push(Effect::Notify(WsClientNotify::Errors))
            } else {
                old(fx)@
            }),
    {
        if self.list.len() > 0 {
            ws_client::send_errors(fx);
        }
    }
}

/// The first errors are kept: once they are logged, further ones do not take their place.
pub proof fn lemma_first_errors_stay(log: Seq<DeviceError>, error: DeviceError)
    requires
        log.len() <= MAX_NUM_ERRORS,
    ensures
        logged(log, error).len() <= MAX_NUM_ERRORS,
        logged(log, error).take(log.len() as int) == log,
{
    assert(logged(log, error).take(log.len() as int) =~= log);
}

/// How serious a report is.
pub open spec fn severity_of(report: Report) -> DeviceErrorType {
    match report {
        Report::SettingsMagicInvalid { .. } => DeviceErrorType::Warning,
        Report::UpdateCommandWithoutUpdate => DeviceErrorType::Warning,
        Report::UpdateToSameVersion { .. } => DeviceErrorType::Warning,
        _ => DeviceErrorType::Error,
    }
}

/// How serious a report is.
pub fn severity(report: &Report) -> (t: DeviceErrorType)
    ensures
        t == severity_of(*report),
{
    match report {
        Report::SettingsMagicInvalid { .. } => DeviceErrorType::Warning,
        Report::UpdateCommandWithoutUpdate => DeviceErrorType::Warning,
        Report::UpdateToSameVersion { .. } => DeviceErrorType::Warning,
        _ => DeviceErrorType::Error,
    }
}

// ---------------------------------------------------------------------------------------------
// Panics
// ---------------------------------------------------------------------------------------------

/// Longest file name in bytes that is kept of a panic.
pub const PANIC_FILE_NAME_MAX_LEN: usize = 64;

/// Longest message in bytes that is kept of a panic.
pub const PANIC_MESSAGE_MAX_LEN: usize = 128;

/// What is kept of a panic over the reset after it.
#[derive(Debug)]
pub struct PersistablePanicInfo {
    pub did_panic: bool,
    pub instant_milliseconds: u32,
    pub file_name: String,
    pub line_number: u32,
    pub column_number: u32,
    pub message: String,
    /// Checksum over the rest, to tell it from what memory holds by chance.
    pub crc32: u32,
}

/// A text, if it takes no more than `max` bytes.
pub open spec fn text_or_unknown(s: Seq<char>, max: int) -> Seq<char> {
    if vstd::utf8::encode_utf8(s).len() <= max {
        s
    } else {
        "unknown"@
    }
}

impl PersistablePanicInfo {
    /// What is kept of a panic, without the checksum.
    pub fn new(
        file: &str,
        line_number: u32,
        column_number: u32,
        message: &str,
        now_instant_ms: u32,
    ) -> (p: Self)
        ensures
            p.did_panic,
            p.instant_milliseconds == now_instant_ms,
            p.file_name@ == text_or_unknown(file@, PANIC_FILE_NAME_MAX_LEN as int),
            p.line_number == line_number,
            p.column_number == column_number,
            p.message@ == text_or_unknown(message@, PANIC_MESSAGE_MAX_LEN as int),
            p.crc32 == 0,
    {
        let file_name = match bounded::string_of_capacity::<64>(file) {
            Some(s) => s,
            None => "unknown".to_owned(),
        };
        let message = match bounded::string_of_capacity::<128>(message) {
            Some(s) => s,
            None => "unknown".to_owned(),
        };
        PersistablePanicInfo {
            did_panic: true,
            instant_milliseconds: now_instant_ms,
            file_name,
            line_number,
            column_number,
            message,
            crc32: 0,
        }
    }

    /// The error that stands for a panic.
    pub open spec fn as_error(self) -> DeviceError {
        DeviceError {
            error_type: DeviceErrorType::Panic,
            instant_milliseconds: self.instant_milliseconds,
            message: self.message,
            file_name: self.file_name,
            line_number: self.line_number,
            column_number: self.column_number,
            unix_timestamp: 0,
        }
    }
}

/// Logs the panic that led to this boot, if there was one and its checksum is what `crc32` says.
/// Returns whether there was: it is then forgotten.
pub fn init_on_boot(info: &PersistablePanicInfo, crc32: Option<u32>, log: &mut ErrorLog) -> (r:
    bool)
    ensures
        r == (info.did_panic && crc32 == Some(info.crc32)),
        final(log)@ == (if r {
            logged(old(log)@, info.as_error())
        } else {
            old(log)@
        }),
{
    if !info.did_panic {
        return false;
    }
    match crc32 {
        Some(crc) => if crc != info.crc32 {
            return false;
        },
        None => {
            return false;
        },
    }
    log.add_error(
        DeviceError {
            error_type: DeviceErrorType::Panic,
            instant_milliseconds: info.instant_milliseconds,
            message: info.message.clone(),
            file_name: info.file_name.clone(),
            line_number: info.line_number,
            column_number: info.column_number,
            unix_timestamp: 0,
        },
    );
    true
}

/// An error is added behind those in the log while there are fewer than four, and dropped after.
pub proof fn lemma_log_holds_four(log: Seq<DeviceError>, error: DeviceError)
    ensures
        log.len() < 4 ==> logged(log, error) == log + seq![error],
        log.len() >= 4 ==> logged(log, error) == log,
{
    assert(log.push(error) =~= log + seq![error]);
}

/// What the device can put right by itself is a warning: settings that it replaces, and updates that
/// there is no need for. All else is an error.
pub proof fn lemma_severity(report: Report)
    ensures
        severity_of(report) == DeviceErrorType::Warning <==> report is SettingsMagicInvalid
            || report is UpdateCommandWithoutUpdate || report is UpdateToSameVersion,
        severity_of(report) != DeviceErrorType::Warning <==> severity_of(report)
            == DeviceErrorType::Error,
{
}

/// The error that stands for a panic says when and where it was and what it said.
pub proof fn lemma_panic_as_error(info: PersistablePanicInfo, s: Seq<char>, max: int)
    ensures
        ({
            let e = info.as_error();
            &&& e.error_type == DeviceErrorType::Panic
            &&& e.instant_milliseconds == info.instant_milliseconds
            &&& e.message@ == info.message@
            &&& e.file_name@ == info.file_name@
            &&& e.line_number == info.line_number
            &&& e.column_number == info.column_number
            &&& e.unix_timestamp == 0
        }),
        vstd::utf8::encode_utf8(s).len() <= max ==> text_or_unknown(s, max) == s,
        vstd::utf8::encode_utf8(s).len() > max ==> text_or_unknown(s, max) == "unknown"@,
{
}

} // verus!
