//! World time, as the server told it last.

use vstd::prelude::*;

use crate::proto::ServerInfo;
use crate::store::app_settings::session::SessionSettings;

verus! {

/// Seconds of a day.
pub const SECONDS_PER_DAY: u32 = 86400;

/// A sum of seconds, in 32 bits.
pub open spec fn wrapped_sum(a: u32, b: u32) -> int {
    (a + b) % 0x1_0000_0000
}

/// A difference of seconds, in 32 bits.
pub open spec fn wrapped_difference(a: u32, b: u32) -> int {
    (a - b) % 0x1_0000_0000
}

/// Get the current Unix timestamp in seconds (since epoch 1970-01-01T00:00:00Z) based on
/// server-synchronized world time.
pub fn get_unix_timestamp_seconds(session: &SessionSettings, uptime_secs: u32) -> (t: u32)
    ensures
        t == wrapped_sum(session.unix_epoch_offset_secs, uptime_secs),
{
    session.unix_epoch_offset_secs.wrapping_add(uptime_secs)
}

/// Seconds from the local midnight before the last sync until now.
pub open spec fn since_sync_midnight(session: SessionSettings, uptime_secs: u32) -> int {
    wrapped_sum(session.local_time_of_day_offset_secs, uptime_secs)
}

/// Get the current seconds elapsed since local midnight based on the user's configured timezone and
/// server-synchronized world time.
pub fn get_local_seconds_since_midnight(session: &SessionSettings, uptime_secs: u32) -> (s: u32)
    ensures
        s == since_sync_midnight(*session, uptime_secs) % SECONDS_PER_DAY as int,
        s < SECONDS_PER_DAY,
{
    session.local_time_of_day_offset_secs.wrapping_add(uptime_secs) % SECONDS_PER_DAY
}

/// Get today's weekday number (0=Sunday, 6=Saturday) based on local time of the user's configured
/// timezone and server-synchronized world time.
pub fn get_local_weekday_number(session: &SessionSettings, uptime_secs: u32) -> (d: u32)
    ensures
        d == (session.local_weekday_number + since_sync_midnight(*session, uptime_secs)
            / SECONDS_PER_DAY as int) % 7,
        d < 7,
{
    let days_passed: u32 = session.local_time_of_day_offset_secs.wrapping_add(uptime_secs)
        / SECONDS_PER_DAY;
    ((session.local_weekday_number as u64 + days_passed as u64) % 7) as u32
}

/// A session that was told the time `info` at an uptime of `uptime_secs`.
pub open spec fn synced(session: SessionSettings, info: ServerInfo, uptime_secs: u32) -> SessionSettings {
    SessionSettings {
        unix_epoch_offset_secs: wrapped_difference(info.unix_timestamp, uptime_secs) as u32,
        local_time_of_day_offset_secs: wrapped_difference(
            info.local_time_of_day_seconds,
            uptime_secs,
        ) as u32,
        local_weekday_number: info.local_weekday_number,
        local_sunrise_time_of_day_seconds: info.local_sunrise_time_of_day_seconds,
        local_sunset_time_of_day_seconds: info.local_sunset_time_of_day_seconds,
        is_time_synced: true,
        ..session
    }
}

/// Takes the time from the server.
pub fn sync(session: &mut SessionSettings, info: &ServerInfo, uptime_secs: u32)
    ensures
        *final(session) == synced(*old(session), *info, uptime_secs),
{
    session.unix_epoch_offset_secs = info.unix_timestamp.wrapping_sub(uptime_secs);
    session.local_time_of_day_offset_secs = info.local_time_of_day_seconds.wrapping_sub(
        uptime_secs,
    );
    session.local_weekday_number = info.local_weekday_number;
    session.local_sunrise_time_of_day_seconds = info.local_sunrise_time_of_day_seconds;
    session.local_sunset_time_of_day_seconds = info.local_sunset_time_of_day_seconds;
    session.is_time_synced = true;
}

/// Some time after a sync, the clock reads what the server said and what has passed since: the
/// Unix time, the local time of day, and the weekday, which moves on at midnight.
pub proof fn lemma_clock_runs_on(
    session: SessionSettings,
    info: ServerInfo,
    sync_uptime: u32,
    uptime: u32,
)
    requires
        sync_uptime <= uptime,
        info.unix_timestamp + (uptime - sync_uptime) <= u32::MAX,
        info.local_time_of_day_seconds + (uptime - sync_uptime) <= u32::MAX,
    ensures
        ({
            let s = synced(session, info, sync_uptime);
            let passed = uptime - sync_uptime;
            &&& wrapped_sum(s.unix_epoch_offset_secs, uptime) == info.unix_timestamp + passed
            &&& since_sync_midnight(s, uptime) == info.local_time_of_day_seconds + passed
            &&& s.local_weekday_number == info.local_weekday_number
        }),
{
}

/// The local clock counts seconds from midnight and then days: each day that passes since the sync
/// is one weekday on, and the seconds start over. The Unix time counts every second.
pub proof fn lemma_clock_ticks(session: SessionSettings, uptime: u32)
    requires
        uptime < u32::MAX,
        session.local_time_of_day_offset_secs + uptime != u32::MAX,
        session.unix_epoch_offset_secs + uptime != u32::MAX,
    ensures
        ({
            let next = (uptime + 1) as u32;
            &&& since_sync_midnight(session, next) == since_sync_midnight(session, uptime) + 1
            &&& wrapped_sum(session.unix_epoch_offset_secs, next) == wrapped_sum(
                session.unix_epoch_offset_secs,
                uptime,
            ) + 1
        }),
{
}

/// At the moment of a sync the clock reads what the server said, and only the time is changed in
/// the session.
pub proof fn lemma_clock_is_set(session: SessionSettings, info: ServerInfo, uptime: u32)
    ensures
        ({
            let s = synced(session, info, uptime);
            &&& wrapped_sum(s.unix_epoch_offset_secs, uptime) == info.unix_timestamp
            &&& since_sync_midnight(s, uptime) == info.local_time_of_day_seconds
            &&& s.local_weekday_number == info.local_weekday_number
            &&& s.local_sunrise_time_of_day_seconds == info.local_sunrise_time_of_day_seconds
            &&& s.local_sunset_time_of_day_seconds == info.local_sunset_time_of_day_seconds
            &&& s.is_time_synced
            &&& s == (SessionSettings {
                unix_epoch_offset_secs: s.unix_epoch_offset_secs,
                local_time_of_day_offset_secs: s.local_time_of_day_offset_secs,
                local_weekday_number: s.local_weekday_number,
                local_sunrise_time_of_day_seconds: s.local_sunrise_time_of_day_seconds,
                local_sunset_time_of_day_seconds: s.local_sunset_time_of_day_seconds,
                is_time_synced: s.is_time_synced,
                ..session
            })
        }),
{
}

} // verus!
