//! The day-night timer, and brightness by the sun.

use vstd::prelude::*;

use crate::display::leds;
use crate::display::leds::{LedPixels, LedStatus};
use crate::effects::{Effect, Effects};
use crate::net::ws_client;
use crate::net::ws_client::WsClientNotify;
use crate::proto::TimerSettings;
use crate::store::app_settings::persist::PersistSettings;
use crate::store::app_settings::session::SessionSettings;
use crate::time;
use crate::util::RGB8;

verus! {

// ---------------------------------------------------------------------------------------------
// The timer
// ---------------------------------------------------------------------------------------------

/// Whether a weekday is among those of a timer.
pub open spec fn weekday_enabled(mask: u32, weekday: u32) -> bool {
    mask & (1u32 << weekday) != 0
}

/// The day before.
pub open spec fn day_before(weekday: u32) -> u32 {
    ((weekday + 6) % 7) as u32
}

/// Whether the timer has the light on: from its start time to its end time on the days that it is
/// set to. An end time that is not after the start time is one of the next day.
pub open spec fn timer_on(timer: TimerSettings, time_of_day: u32, weekday: u32) -> bool {
    let (start, end) = (timer.start_time_of_day_seconds, timer.end_time_of_day_seconds);
    let today = weekday_enabled(timer.weekdays_bitmask, weekday);
    let yesterday = weekday_enabled(timer.weekdays_bitmask, day_before(weekday));
    timer.enabled && if start < end {
        today && start <= time_of_day < end
    } else {
        (today && start <= time_of_day) || (yesterday && time_of_day < end)
    }
}

/// Given the current local time and timer settings, determine if the day-night timer should be
/// driving the lights on.
pub fn is_day_night_timer_driving_light_on(
    local_time_of_day_seconds: u32,
    local_weekday_number: u32,
    timer_settings: &TimerSettings,
) -> (r: bool)
    requires
        timer_settings.enabled ==> local_weekday_number < 32,
    ensures
        r == timer_on(*timer_settings, local_time_of_day_seconds, local_weekday_number),
{
    if !timer_settings.enabled {
        return false;
    }
    let mask: u32 = timer_settings.weekdays_bitmask;
    let yesterday: u32 = (local_weekday_number + 6) % 7;
    let is_today_enabled = (mask & (1u32 << local_weekday_number)) != 0;
    let is_yesterday_enabled = (mask & (1u32 << yesterday)) != 0;
    let start: u32 = timer_settings.start_time_of_day_seconds;
    let end: u32 = timer_settings.end_time_of_day_seconds;
    if end <= start {
        (is_today_enabled && local_time_of_day_seconds >= start) || (is_yesterday_enabled
            && local_time_of_day_seconds < end)
    } else {
        is_today_enabled && local_time_of_day_seconds >= start && local_time_of_day_seconds < end
    }
}

/// What the timer makes of a session at an uptime.
pub open spec fn timer_says(
    session: SessionSettings,
    persist: PersistSettings,
    uptime_secs: u32,
) -> bool {
    let since = time::since_sync_midnight(session, uptime_secs);
    timer_on(
        persist.config.timer_settings,
        (since % time::SECONDS_PER_DAY as int) as u32,
        ((session.local_weekday_number + since / time::SECONDS_PER_DAY as int) % 7) as u32,
    )
}

/// Whether the timer changes the light now: only if it is enabled, not overridden, and the light
/// is not as it says.
pub open spec fn timer_changes(
    session: SessionSettings,
    persist: PersistSettings,
    uptime_secs: u32,
) -> bool {
    &&& session.is_time_synced
    &&& persist.config.timer_settings.enabled
    &&& session.light_on != timer_says(session, persist, uptime_secs)
    &&& session.light_on_override is None
}

/// The override after a step of the timer: it ends once the timer says the same, or is off.
pub open spec fn override_after(
    session: SessionSettings,
    persist: PersistSettings,
    uptime_secs: u32,
) -> Option<bool> {
    match session.light_on_override {
        Some(on) if session.is_time_synced && (on == timer_says(session, persist, uptime_secs)
            || !persist.config.timer_settings.enabled) => None,
        other => other,
    }
}

/// A step of the timer. If it changes the light, shows so, and returns whether the light goes on
/// or off; [`set_timer_light`] then changes it, once pixels that go off have faded out.
pub fn drive_day_night_timer_light_state(
    session: &mut SessionSettings,
    persist: &PersistSettings,
    uptime_secs: u32,
    leds: &mut Vec<RGB8>,
    fx: &mut Effects,
) -> (r: Option<bool>)
    ensures
        *final(session) == (SessionSettings {
            light_on_override: override_after(*old(session), *persist, uptime_secs),
            ..*old(session)
        }),
        r == (if timer_changes(*old(session), *persist, uptime_secs) {
            Some(timer_says(*old(session), *persist, uptime_secs))
        } else {
            None
        }),
        final(leds)@ == old(leds)@,
        final(fx)@ == old(fx)@ + (match r {
            None => Seq::empty(),
            Some(true) => leds::status_effects(LedStatus::Okay),
            Some(false) => leds::status_effects(LedStatus::TimerOff) + leds::pixels_effects(
                LedPixels::FadeOut,
            ),
        }),
{
    assert(fx@ + Seq::<Effect>::empty() =~= fx@);
    if !session.is_time_synced {
        return None;
    }
    let time_of_day: u32 = time::get_local_seconds_since_midnight(session, uptime_secs);
    let weekday: u32 = time::get_local_weekday_number(session, uptime_secs);
    let on = is_day_night_timer_driving_light_on(
        time_of_day,
        weekday,
        &persist.config.timer_settings,
    );
    let enabled = persist.config.timer_settings.enabled;
    let overridden = session.light_on_override;
    if let Some(light_on_override) = overridden {
        if light_on_override == on || !enabled {
            session.light_on_override = None;
        }
    }
    if enabled && session.light_on != on && overridden.is_none() {
        if on {
            leds::set_status(LedStatus::Okay, fx);
        } else {
            leds::set_status(LedStatus::TimerOff, fx);
            leds::set_pixels(LedPixels::FadeOut, leds, fx);
            assert(fx@ =~= old(fx)@ + (leds::status_effects(LedStatus::TimerOff)
                + leds::pixels_effects(LedPixels::FadeOut)));
        }
        Some(on)
    } else {
        None
    }
}

/// Turns the light on or off for the timer, and tells the server if that changes anything.
pub fn set_timer_light(session: &mut SessionSettings, on: bool, fx: &mut Effects)
    ensures
        *final(session) == (SessionSettings {
            light_on: on,
            night_timer_active: !on,
            ..*old(session)
        }),
        final(fx)@ == (if old(session).light_on != on || old(session).night_timer_active == on {
            old(fx)@.push(Effect::Notify(WsClientNotify::Status))
        } else {
            old(fx)@
        }),
{
    let changed = session.light_on != on || session.night_timer_active == on;
    session.light_on = on;
    session.night_timer_active = !on;
    if changed {
        ws_client::send_status(fx);
    }
}

/// An override ends at the latest when the timer comes to say the same, and until then the timer
/// leaves the light alone.
pub proof fn lemma_override_holds(
    session: SessionSettings,
    persist: PersistSettings,
    uptime_secs: u32,
    on: bool,
)
    requires
        session.light_on_override == Some(on),
    ensures
        !timer_changes(session, persist, uptime_secs),
        session.is_time_synced && timer_says(session, persist, uptime_secs) == on
            ==> override_after(session, persist, uptime_secs) is None,
        persist.config.timer_settings.enabled && timer_says(session, persist, uptime_secs) != on
            ==> override_after(session, persist, uptime_secs) == Some(on),
{
}

/// A timer that is enabled on no day never has the light on, and neither does one that is not
/// enabled.
pub proof fn lemma_timer_without_days(timer: TimerSettings, time_of_day: u32, weekday: u32)
    requires
        timer.weekdays_bitmask == 0 || !timer.enabled,
    ensures
        !timer_on(timer, time_of_day, weekday),
{
    let (a, b) = (weekday, day_before(weekday));
    assert(0u32 & (1u32 << a) == 0) by (bit_vector);
    assert(0u32 & (1u32 << b) == 0) by (bit_vector);
}

/// A timer runs from its start time for as long as it takes to come to its end time, which is a
/// whole day where the two are the same. The light is on for that long from each start on a day
/// that the timer is set to: a start of today, or one of the day before that is not over yet.
pub proof fn lemma_timer_runs_from_its_starts(timer: TimerSettings, time_of_day: u32, weekday: u32)
    requires
        time_of_day < 86400,
        weekday < 7,
        timer.start_time_of_day_seconds < 86400,
        timer.end_time_of_day_seconds <= 86400,
    ensures
        ({
            let (start, end) = (timer.start_time_of_day_seconds, timer.end_time_of_day_seconds);
            let lasts = if end > start {
                end - start
            } else {
                end + 86400 - start
            };
            let eve = if weekday == 0 {
                6u32
            } else {
                (weekday - 1) as u32
            };
            let since_start = time_of_day - start;
            &&& timer_on(timer, time_of_day, weekday) <==> timer.enabled && {
                ||| timer.weekdays_bitmask & (1u32 << weekday) != 0 && 0 <= since_start < lasts
                ||| timer.weekdays_bitmask & (1u32 << eve) != 0 && since_start + 86400 < lasts
            }
        }),
{
    assert(day_before(weekday) == (if weekday == 0 {
        6
    } else {
        weekday - 1
    }));
}

/// The timer leaves the light as it says. It does nothing before the time is known, while it is
/// not enabled, or while it is overridden; else it turns the light exactly if the light is not as
/// it says.
pub proof fn lemma_timer_corrects_the_light(
    session: SessionSettings,
    persist: PersistSettings,
    uptime_secs: u32,
)
    ensures
        timer_changes(session, persist, uptime_secs) ==> session.is_time_synced
            && persist.config.timer_settings.enabled && session.light_on_override is None,
        session.is_time_synced && persist.config.timer_settings.enabled
            && session.light_on_override is None ==> (timer_changes(session, persist, uptime_secs)
            <==> session.light_on != timer_says(session, persist, uptime_secs)),
        session.light_on_override is None ==> override_after(session, persist, uptime_secs) is None,
        !session.is_time_synced ==> override_after(session, persist, uptime_secs)
            == session.light_on_override,
        session.is_time_synced && !persist.config.timer_settings.enabled ==> override_after(
            session,
            persist,
            uptime_secs,
        ) is None,
{
}

/// What the timer says some time after a sync is what it says at the time of the day that the
/// server told plus the time passed, on the weekday that the server told plus the days passed.
pub proof fn lemma_timer_goes_by_the_local_time(
    session: SessionSettings,
    persist: PersistSettings,
    uptime_secs: u32,
    time_of_day: u32,
    weekday: u32,
    days: u32,
)
    requires
        time_of_day < 86400,
        days * 86400 + time_of_day == (session.local_time_of_day_offset_secs + uptime_secs)
            % 0x1_0000_0000,
        weekday < 7,
        (weekday - session.local_weekday_number - days) % 7 == 0,
    ensures
        timer_says(session, persist, uptime_secs) == timer_on(
            persist.config.timer_settings,
            time_of_day,
            weekday,
        ),
{
}

// ---------------------------------------------------------------------------------------------
// The sun
// ---------------------------------------------------------------------------------------------

/// Where the sun is on its way.
#[derive(Debug, Copy, Clone, PartialEq, Eq, Structural)]
pub enum SunPhase {
    Night,
    Day { seconds_since_sunrise: i64, day_length_seconds: i64 },
}

/// Whether it is day: from sunrise to sunset. A sunset that is not after sunrise is one of the
/// next day.
pub open spec fn is_day(time_of_day: u32, sunrise: u32, sunset: u32) -> bool {
    if sunset <= sunrise {
        time_of_day >= sunrise || time_of_day < sunset
    } else {
        sunrise <= time_of_day < sunset
    }
}

/// Where the sun is at a time of the day.
pub open spec fn sun_phase(time_of_day: u32, sunrise: u32, sunset: u32) -> SunPhase {
    if !is_day(time_of_day, sunrise, sunset) {
        SunPhase::Night
    } else {
        SunPhase::Day {
            seconds_since_sunrise: if time_of_day >= sunrise {
                (time_of_day - sunrise) as i64
            } else {
                (86400 - sunrise + time_of_day) as i64
            },
            day_length_seconds: if sunset <= sunrise {
                (86400 - sunrise + sunset) as i64
            } else {
                (sunset - sunrise) as i64
            },
        }
    }
}

pub fn get_sun_phase(time_of_day: u32, sunrise: u32, sunset: u32) -> (p: SunPhase)
    ensures
        p == sun_phase(time_of_day, sunrise, sunset),
{
    let wraps = sunset <= sunrise;
    let day = if wraps {
        time_of_day >= sunrise || time_of_day < sunset
    } else {
        time_of_day >= sunrise && time_of_day < sunset
    };
    if !day {
        return SunPhase::Night;
    }
    let (now, rise, set) = (time_of_day as i64, sunrise as i64, sunset as i64);
    let day_length_seconds: i64 = if wraps {
        86400 - rise + set
    } else {
        set - rise
    };
    let seconds_since_sunrise: i64 = if now >= rise {
        now - rise
    } else {
        86400 - rise + now
    };
    SunPhase::Day { seconds_since_sunrise, day_length_seconds }
}

/// By day, the sun is on its way between sunrise and sunset.
pub proof fn lemma_sun_on_its_way(time_of_day: u32, sunrise: u32, sunset: u32)
    requires
        time_of_day < 86400,
        sunrise <= 86400,
        sunset <= 86400,
    ensures
        sun_phase(time_of_day, sunrise, sunset) matches SunPhase::Day {
            seconds_since_sunrise,
            day_length_seconds,
        } ==> 0 <= seconds_since_sunrise < day_length_seconds || sunset == sunrise,
{
}

/// The day begins at sunrise and lasts until sunset, which is the next day's where it is not after
/// sunrise. It is day exactly while less time than that has passed since sunrise, around midnight
/// too, and then sunrise and the time since make the time of the day.
pub proof fn lemma_day_from_sunrise_to_sunset(time_of_day: u32, sunrise: u32, sunset: u32)
    requires
        time_of_day < 86400,
        sunrise < 86400,
        sunset < 86400,
    ensures
        ({
            let passed = (time_of_day - sunrise) % 86400;
            let lasts = if sunset == sunrise {
                86400
            } else {
                (sunset - sunrise) % 86400
            };
            match sun_phase(time_of_day, sunrise, sunset) {
                SunPhase::Night => passed >= lasts,
                SunPhase::Day { seconds_since_sunrise, day_length_seconds } => {
                    &&& passed < lasts
                    &&& 0 <= seconds_since_sunrise < day_length_seconds
                    &&& (sunrise + seconds_since_sunrise) % 86400 == time_of_day
                    &&& 0 < day_length_seconds <= 86400
                    &&& (sunrise + day_length_seconds) % 86400 == sunset
                },
            }
        }),
{
}

/// The time since sunrise is 0 at sunrise and grows by one each second of the day, over midnight
/// too. The length of the day stays the same meanwhile, and once it has passed it is night.
pub proof fn lemma_sun_moves_on(time_of_day: u32, sunrise: u32, sunset: u32)
    requires
        time_of_day < 86400,
        sunrise < 86400,
        sunset < 86400,
        sunrise != sunset,
    ensures
        sun_phase(sunrise, sunrise, sunset) matches SunPhase::Day { seconds_since_sunrise, .. }
            && seconds_since_sunrise == 0,
        sun_phase(sunset, sunrise, sunset) is Night,
        ({
            let next = ((time_of_day + 1) % 86400) as u32;
            sun_phase(time_of_day, sunrise, sunset) matches SunPhase::Day {
                seconds_since_sunrise: s,
                day_length_seconds: l,
            } ==> match sun_phase(next, sunrise, sunset) {
                SunPhase::Night => s + 1 == l,
                SunPhase::Day { seconds_since_sunrise, day_length_seconds } => {
                    &&& seconds_since_sunrise == s + 1
                    &&& day_length_seconds == l
                },
            }
        }),
{
}

/// What the automatic brightness depends on.
#[derive(Debug, Copy, Clone, PartialEq, Eq, Structural)]
pub struct SunBrightness {
    pub phase: SunPhase,
    pub day_brightness_percent: u8,
    pub night_brightness_percent: u8,
}

/// What a step of the automatic brightness comes to.
#[derive(Debug, Copy, Clone, PartialEq, Eq, Structural)]
pub enum SunStep {
    /// The time is not known yet.
    Wait,
    /// It is not enabled.
    Off,
    /// It is to be worked out.
    Follow(SunBrightness),
}

/// Finds out what the automatic brightness depends on.
pub fn plan_sunlight_auto_brightness(
    session: &SessionSettings,
    persist: &PersistSettings,
    uptime_secs: u32,
) -> (r: SunStep)
    ensures
        r == (if !session.is_time_synced {
            SunStep::Wait
        } else if !persist.config.sunlight_auto_brightness.enabled {
            SunStep::Off
        } else {
            SunStep::Follow(
                SunBrightness {
                    phase: sun_phase(
                        (time::since_sync_midnight(*session, uptime_secs)
                            % time::SECONDS_PER_DAY as int) as u32,
                        session.local_sunrise_time_of_day_seconds,
                        session.local_sunset_time_of_day_seconds,
                    ),
                    day_brightness_percent:
                        persist.config.sunlight_auto_brightness.day_brightness_percent as u8,
                    night_brightness_percent:
                        persist.config.sunlight_auto_brightness.night_brightness_percent as u8,
                },
            )
        }),
{
    if !session.is_time_synced {
        return SunStep::Wait;
    }
    let sun = persist.config.sunlight_auto_brightness;
    if !sun.enabled {
        return SunStep::Off;
    }
    let time_of_day: u32 = time::get_local_seconds_since_midnight(session, uptime_secs);
    SunStep::Follow(
        SunBrightness {
            phase: get_sun_phase(
                time_of_day,
                session.local_sunrise_time_of_day_seconds,
                session.local_sunset_time_of_day_seconds,
            ),
            day_brightness_percent: sun.day_brightness_percent as u8,
            night_brightness_percent: sun.night_brightness_percent as u8,
        },
    )
}

/// Sets the automatic brightness, and tells the server if that changes anything.
pub fn set_auto_brightness(session: &mut SessionSettings, percent: Option<u8>, fx: &mut Effects)
    ensures
        *final(session) == (SessionSettings { auto_brightness_percent: percent, ..*old(session) }),
        final(fx)@ == (if old(session).auto_brightness_percent != percent {
            old(fx)@.push(Effect::Notify(WsClientNotify::Status))
        } else {
            old(fx)@
        }),
{
    let same = match (session.auto_brightness_percent, percent) {
        (Some(a), Some(b)) => a == b,
        (None, None) => true,
        _ => false,
    };
    if !same {
        session.auto_brightness_percent = percent;
        ws_client::send_status(fx);
    }
}

} // verus!
