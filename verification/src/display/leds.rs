//! The LEDs: the status LED, and the pixels behind it on the same strip.

use vstd::prelude::*;

use crate::display::animations;
use crate::display::animations::{LedPixelsAnimationEvent, LedStatusAnimationEvent};
use crate::effects::{Effect, Effects};
use crate::outside::colors;
use crate::proto::{DeviceConfig, SunlightAutoBrightness};
use crate::store::app_settings::persist;
use crate::store::app_settings::persist::PersistSettings;
use crate::store::app_settings::session::SessionSettings;
use crate::util;
use crate::util::RGB8;

verus! {

/// What the device is up to.
#[derive(Debug, Copy, Clone, PartialEq, Eq, Structural)]
pub enum LedStatus {
    /// Booting.
    Idle,
    /// Normal operation.
    Okay,
    /// Normal operation, and there is a firmware update.
    OkUpdateAvailable,
    /// The light was turned off by a button or online.
    ToggleOff,
    /// The light was turned off by the day-night timer.
    TimerOff,
    /// Waiting for credentials.
    Pairing,
    /// Connecting to the network.
    ConnectingWifi,
    /// Connecting to the server.
    ConnectingServer,
    /// A firmware update is in progress.
    UpdatingFirmware,
    /// The network cannot be reached or does not take the credentials.
    WifiError,
    /// The server cannot be reached.
    ServerError,
    /// The server does not take the token.
    AuthError,
    /// The firmware update failed.
    UpdateFailed,
}

/// What the pixels are to show.
#[derive(Debug, Copy, Clone, PartialEq, Eq, Structural)]
pub enum LedPixels {
    Off,
    StartupAnimation(RGB8),
    ProgressPercent(u8),
    FadeOut,
    Identify,
    TestMode,
    DemoMode,
}

#[derive(Debug, Copy, Clone, PartialEq, Eq, Structural)]
pub enum LedColor {
    Black,
    Amber,
    Green,
    Blue,
    Yellow,
    Red,
    Pink,
    Purple,
}

impl LedColor {
    /// The channels of a color.
    pub open spec fn rgb(self) -> RGB8 {
        match self {
            LedColor::Black => RGB8 { r: 0, g: 0, b: 0 },
            LedColor::Amber => RGB8 { r: 255, g: 163, b: 108 },
            LedColor::Green => RGB8 { r: 0, g: 255, b: 80 },
            LedColor::Blue => RGB8 { r: 0, g: 80, b: 255 },
            LedColor::Yellow => RGB8 { r: 255, g: 180, b: 0 },
            LedColor::Red => RGB8 { r: 255, g: 60, b: 0 },
            LedColor::Pink => RGB8 { r: 255, g: 0, b: 200 },
            LedColor::Purple => RGB8 { r: 140, g: 0, b: 255 },
        }
    }

    pub fn as_rgb8(&self) -> (c: RGB8)
        ensures
            c == self.rgb(),
    {
        match self {
            LedColor::Black => RGB8 { r: 0, g: 0, b: 0 },
            LedColor::Amber => RGB8 { r: 255, g: 163, b: 108 },
            LedColor::Green => RGB8 { r: 0, g: 255, b: 80 },
            LedColor::Blue => RGB8 { r: 0, g: 80, b: 255 },
            LedColor::Yellow => RGB8 { r: 255, g: 180, b: 0 },
            LedColor::Red => RGB8 { r: 255, g: 60, b: 0 },
            LedColor::Pink => RGB8 { r: 255, g: 0, b: 200 },
            LedColor::Purple => RGB8 { r: 140, g: 0, b: 255 },
        }
    }
}

#[derive(Debug, Copy, Clone, PartialEq, Eq, Structural)]
pub enum LedInterval {
    Short,
    Medium,
    Long,
}

impl LedInterval {
    /// The duration in milliseconds.
    pub open spec fn ms(self) -> u64 {
        match self {
            LedInterval::Short => 200,
            LedInterval::Medium => 500,
            LedInterval::Long => 2000,
        }
    }

    pub fn as_duration_ms(&self) -> (ms: u64)
        ensures
            ms == self.ms(),
    {
        match self {
            LedInterval::Short => 200,
            LedInterval::Medium => 500,
            LedInterval::Long => 2000,
        }
    }
}

// ---------------------------------------------------------------------------------------------
// Status
// ---------------------------------------------------------------------------------------------

/// How the status LED shows an error: its color and red in quick alternation.
pub open spec fn error_pattern(color: LedColor) -> LedStatusAnimationEvent {
    LedStatusAnimationEvent::Alternate(
        color.rgb(),
        LedColor::Red.rgb(),
        LedInterval::Short.ms(),
        LedInterval::Short.ms(),
    )
}

/// How the status LED shows a status: steady if nothing is happening, blinking during a process,
/// and alternating with red on an error.
pub open spec fn status_pattern(status: LedStatus) -> LedStatusAnimationEvent {
    match status {
        LedStatus::Idle => LedStatusAnimationEvent::Constant(LedColor::Black.rgb()),
        LedStatus::Okay => LedStatusAnimationEvent::Constant(LedColor::Green.rgb()),
        LedStatus::OkUpdateAvailable => LedStatusAnimationEvent::Alternate(
            LedColor::Green.rgb(),
            LedColor::Pink.rgb(),
            LedInterval::Long.ms(),
            LedInterval::Short.ms(),
        ),
        LedStatus::ToggleOff => LedStatusAnimationEvent::Constant(LedColor::Blue.rgb()),
        LedStatus::TimerOff => LedStatusAnimationEvent::Constant(LedColor::Purple.rgb()),
        LedStatus::Pairing => LedStatusAnimationEvent::Blink(
            LedColor::Blue.rgb(),
            LedInterval::Medium.ms(),
        ),
        LedStatus::ConnectingWifi => LedStatusAnimationEvent::Blink(
            LedColor::Yellow.rgb(),
            LedInterval::Medium.ms(),
        ),
        LedStatus::ConnectingServer => LedStatusAnimationEvent::Blink(
            LedColor::Green.rgb(),
            LedInterval::Medium.ms(),
        ),
        LedStatus::UpdatingFirmware => LedStatusAnimationEvent::Blink(
            LedColor::Pink.rgb(),
            LedInterval::Medium.ms(),
        ),
        LedStatus::WifiError => error_pattern(LedColor::Yellow),
        LedStatus::ServerError => error_pattern(LedColor::Green),
        LedStatus::AuthError => error_pattern(LedColor::Blue),
        LedStatus::UpdateFailed => error_pattern(LedColor::Pink),
    }
}

fn blink(color: LedColor) -> (e: LedStatusAnimationEvent)
    ensures
        e == LedStatusAnimationEvent::Blink(color.rgb(), LedInterval::Medium.ms()),
{
    LedStatusAnimationEvent::Blink(color.as_rgb8(), LedInterval::Medium.as_duration_ms())
}

fn alternate_with_red(color: LedColor) -> (e: LedStatusAnimationEvent)
    ensures
        e == error_pattern(color),
{
    LedStatusAnimationEvent::Alternate(
        color.as_rgb8(),
        LedColor::Red.as_rgb8(),
        LedInterval::Short.as_duration_ms(),
        LedInterval::Short.as_duration_ms(),
    )
}

/// What showing a status asks for.
pub open spec fn status_effects(status: LedStatus) -> Seq<Effect> {
    seq![
        Effect::CancelStatusAnimation,
        Effect::StartStatusAnimation(status_pattern(status)),
    ]
}

/// Shows a status on the status LED, in place of what it shows.
pub fn set_status(status: LedStatus, fx: &mut Effects)
    ensures
        final(fx)@ == old(fx)@ + status_effects(status),
{
    animations::cancel_status_animation(fx);
    let event = match status {
        LedStatus::Idle => LedStatusAnimationEvent::Constant(LedColor::Black.as_rgb8()),
        LedStatus::Okay => LedStatusAnimationEvent::Constant(LedColor::Green.as_rgb8()),
        LedStatus::OkUpdateAvailable => LedStatusAnimationEvent::Alternate(
            LedColor::Green.as_rgb8(),
            LedColor::Pink.as_rgb8(),
            LedInterval::Long.as_duration_ms(),
            LedInterval::Short.as_duration_ms(),
        ),
        LedStatus::ToggleOff => LedStatusAnimationEvent::Constant(LedColor::Blue.as_rgb8()),
        LedStatus::TimerOff => LedStatusAnimationEvent::Constant(LedColor::Purple.as_rgb8()),
        LedStatus::Pairing => blink(LedColor::Blue),
        LedStatus::ConnectingWifi => blink(LedColor::Yellow),
        LedStatus::ConnectingServer => blink(LedColor::Green),
        LedStatus::UpdatingFirmware => blink(LedColor::Pink),
        LedStatus::WifiError => alternate_with_red(LedColor::Yellow),
        LedStatus::ServerError => alternate_with_red(LedColor::Green),
        LedStatus::AuthError => alternate_with_red(LedColor::Blue),
        LedStatus::UpdateFailed => alternate_with_red(LedColor::Pink),
    };
    animations::start_status_animation(event, fx);
    assert(fx@ =~= old(fx)@ + status_effects(status));
}

/// The status that the session is in.
pub open spec fn session_status(session: SessionSettings) -> LedStatus {
    if session.updating_firmware {
        LedStatus::UpdatingFirmware
    } else if session.light_on {
        if session.firmware_update_available is Some {
            LedStatus::OkUpdateAvailable
        } else {
            LedStatus::Okay
        }
    } else if session.night_timer_active {
        LedStatus::TimerOff
    } else {
        LedStatus::ToggleOff
    }
}

/// What showing the status of the session asks for: nothing before the device is set up.
pub open spec fn session_status_effects(
    session: SessionSettings,
    persist: PersistSettings,
) -> Seq<Effect> {
    if persist.is_provisioned() {
        status_effects(session_status(session))
    } else {
        Seq::empty()
    }
}

/// Shows the status of the session.
pub fn set_status_led_from_session(
    session: &SessionSettings,
    persist: &PersistSettings,
    fx: &mut Effects,
)
    ensures
        final(fx)@ == old(fx)@ + session_status_effects(*session, *persist),
{
    if !persist.has_credentials_and_is_authenticated() {
        assert(fx@ + Seq::<Effect>::empty() =~= fx@);
        return;
    }
    let status = if session.updating_firmware {
        LedStatus::UpdatingFirmware
    } else if session.light_on {
        if session.firmware_update_available.is_some() {
            LedStatus::OkUpdateAvailable
        } else {
            LedStatus::Okay
        }
    } else if session.night_timer_active {
        LedStatus::TimerOff
    } else {
        LedStatus::ToggleOff
    };
    set_status(status, fx);
}

/// Two statuses look the same only if they are the same.
pub proof fn lemma_status_is_recognizable(a: LedStatus, b: LedStatus)
    ensures
        status_pattern(a) == status_pattern(b) <==> a == b,
{
}

/// The status LED is steady while nothing is going on: off at first, green in operation, blue or
/// purple while the light is off. It blinks evenly during a process, in a color of its own. After
/// an error it alternates quickly between the color of the process that failed and red. With an
/// update at hand it is green, with a short flash of pink now and then.
pub proof fn lemma_status_colors()
    ensures
        ({
            let green = RGB8 { r: 0, g: 255, b: 80 };
            let blue = RGB8 { r: 0, g: 80, b: 255 };
            let yellow = RGB8 { r: 255, g: 180, b: 0 };
            let pink = RGB8 { r: 255, g: 0, b: 200 };
            let purple = RGB8 { r: 140, g: 0, b: 255 };
            let red = RGB8 { r: 255, g: 60, b: 0 };
            let steady = |s: LedStatus, c: RGB8|
                status_pattern(s) == LedStatusAnimationEvent::Constant(c);
            let blinks = |s: LedStatus, c: RGB8|
                status_pattern(s) == LedStatusAnimationEvent::Blink(c, 500);
            let fails = |s: LedStatus, c: RGB8|
                status_pattern(s) == LedStatusAnimationEvent::Alternate(c, red, 200, 200);
            &&& steady(LedStatus::Idle, RGB8 { r: 0, g: 0, b: 0 })
            &&& steady(LedStatus::Okay, green)
            &&& steady(LedStatus::ToggleOff, blue)
            &&& steady(LedStatus::TimerOff, purple)
            &&& status_pattern(LedStatus::OkUpdateAvailable) == LedStatusAnimationEvent::Alternate(
                green,
                pink,
                2000,
                200,
            )
            &&& blinks(LedStatus::Pairing, blue) && fails(LedStatus::AuthError, blue)
            &&& blinks(LedStatus::ConnectingWifi, yellow) && fails(LedStatus::WifiError, yellow)
            &&& blinks(LedStatus::ConnectingServer, green) && fails(LedStatus::ServerError, green)
            &&& blinks(LedStatus::UpdatingFirmware, pink) && fails(LedStatus::UpdateFailed, pink)
        }),
{
}

/// The status of the session: an update in progress before all; else whether the light is on, with
/// an update at hand or not, and if it is off, whether the timer or the user turned it off. It is
/// shown, in place of what was shown, only once the device has a network and a token.
pub proof fn lemma_session_status(session: SessionSettings, persist: PersistSettings)
    ensures
        ({
            let status = session_status(session);
            &&& status == LedStatus::UpdatingFirmware <==> session.updating_firmware
            &&& status == LedStatus::Okay || status == LedStatus::OkUpdateAvailable <==> (
            !session.updating_firmware && session.light_on)
            &&& status == LedStatus::TimerOff || status == LedStatus::ToggleOff <==> (
            !session.updating_firmware && !session.light_on)
            &&& status == LedStatus::OkUpdateAvailable ==> session.firmware_update_available is Some
            &&& status == LedStatus::Okay ==> session.firmware_update_available is None
            &&& status == LedStatus::TimerOff ==> session.night_timer_active
            &&& status == LedStatus::ToggleOff ==> !session.night_timer_active
            &&& persist.is_provisioned() ==> session_status_effects(session, persist) == seq![
                Effect::CancelStatusAnimation,
                Effect::StartStatusAnimation(status_pattern(status)),
            ]
            &&& !persist.is_provisioned() ==> session_status_effects(session, persist).len() == 0
        }),
{
}

// ---------------------------------------------------------------------------------------------
// Pixels
// ---------------------------------------------------------------------------------------------

/// Brings the colors to the LEDs.
pub fn update(fx: &mut Effects)
    ensures
        final(fx)@ == old(fx)@.push(Effect::UpdateLeds),
{
    fx.push(Effect::UpdateLeds);
}

/// The strip with all pixels dark, and the status LED as it is.
pub open spec fn darkened(leds: Seq<RGB8>) -> Seq<RGB8> {
    Seq::new(
        leds.len(),
        |i: int|
            if i == 0 {
                leds[0]
            } else {
                util::spec_black()
            },
    )
}

/// The animation that shows something on the pixels, if it takes one.
pub open spec fn pixels_animation(pixels: LedPixels) -> Option<LedPixelsAnimationEvent> {
    match pixels {
        LedPixels::Off => None,
        LedPixels::StartupAnimation(color) => Some(LedPixelsAnimationEvent::PlayStartup(color)),
        LedPixels::ProgressPercent(p) => Some(LedPixelsAnimationEvent::ProgressPercent(p)),
        LedPixels::FadeOut => Some(LedPixelsAnimationEvent::FadeOut),
        LedPixels::Identify => Some(LedPixelsAnimationEvent::Identify),
        LedPixels::TestMode => Some(LedPixelsAnimationEvent::TestMode),
        LedPixels::DemoMode => Some(LedPixelsAnimationEvent::DemoMode),
    }
}

/// What showing something on the pixels asks for.
pub open spec fn pixels_effects(pixels: LedPixels) -> Seq<Effect> {
    seq![
        Effect::CancelPixelsAnimation,
        match pixels_animation(pixels) {
            Some(event) => Effect::StartPixelsAnimation(event),
            None => Effect::UpdateLeds,
        },
    ]
}

/// Shows something on the pixels, in place of what they show.
pub fn set_pixels(pixels: LedPixels, leds: &mut Vec<RGB8>, fx: &mut Effects)
    ensures
        final(leds)@ == (if pixels == LedPixels::Off {
            darkened(old(leds)@)
        } else {
            old(leds)@
        }),
        final(fx)@ == old(fx)@ + pixels_effects(pixels),
{
    animations::cancel_pixels_animation(fx);
    let event = match pixels {
        LedPixels::Off => {
            let mut i: usize = 1;
            while i < leds.len()
                invariant
                    1 <= i,
                    i <= leds@.len() || leds@.len() == 0,
                    leds@.len() == old(leds)@.len(),
                    forall|j: int|
                        0 <= j < leds@.len() ==> #[trigger] leds@[j] == (if 1 <= j < i {
                            util::spec_black()
                        } else {
                            old(leds)@[j]
                        }),
                decreases leds@.len() - i,
            {
                leds[i] = util::black();
                i = i + 1;
            }
            assert(leds@ =~= darkened(old(leds)@));
            update(fx);
            assert(fx@ =~= old(fx)@ + pixels_effects(pixels));
            return;
        },
        LedPixels::FadeOut => LedPixelsAnimationEvent::FadeOut,
        LedPixels::StartupAnimation(color) => LedPixelsAnimationEvent::PlayStartup(color),
        LedPixels::ProgressPercent(progress) => LedPixelsAnimationEvent::ProgressPercent(progress),
        LedPixels::Identify => LedPixelsAnimationEvent::Identify,
        LedPixels::TestMode => LedPixelsAnimationEvent::TestMode,
        LedPixels::DemoMode => LedPixelsAnimationEvent::DemoMode,
    };
    animations::start_pixels_animation(event, fx);
    assert(fx@ =~= old(fx)@ + pixels_effects(pixels));
}

/// Sets the color of the status LED.
pub fn set_status_pixel(leds: &mut Vec<RGB8>, color: RGB8)
    requires
        old(leds)@.len() > 0,
    ensures
        final(leds)@ == old(leds)@.update(0, color),
{
    leds[0] = color;
}

// ---------------------------------------------------------------------------------------------
// Brightness
// ---------------------------------------------------------------------------------------------

/// The brightness in force: the automatic one if there is one, or else the configured one.
pub open spec fn brightness_in_force(session: SessionSettings, persist: PersistSettings) -> u8 {
    match session.auto_brightness_percent {
        Some(percent) => percent,
        None => persist.config.brightness_percent as u8,
    }
}

pub fn get_current_brightness_percent(session: &SessionSettings, persist: &PersistSettings) -> (p:
    u8)
    ensures
        p == brightness_in_force(*session, *persist),
{
    match session.auto_brightness_percent {
        Some(percent) => percent,
        None => persist.config.brightness_percent as u8,
    }
}

/// A color as it goes to the LEDs: corrected for the eye, then dimmed.
pub open spec fn processed(c: RGB8, level: u8) -> RGB8 {
    RGB8 {
        r: colors::dimmed(colors::gamma_corrected(c.r), level) as u8,
        g: colors::dimmed(colors::gamma_corrected(c.g), level) as u8,
        b: colors::dimmed(colors::gamma_corrected(c.b), level) as u8,
    }
}

/// How bright the status LED is: brighter than the pixels.
pub open spec fn status_level(brightness_percent: u8) -> u8 {
    if brightness_percent > 155 {
        255
    } else {
        (brightness_percent + 100) as u8
    }
}

/// How bright the pixels are.
pub open spec fn pixel_level(brightness_percent: u8, is_light_on: bool) -> u8 {
    if is_light_on {
        brightness_percent
    } else {
        0
    }
}

/// The strip as it goes to the LEDs.
pub fn led_buffer_processed(leds: &Vec<RGB8>, brightness_percent: u8, is_light_on: bool) -> (r: Vec<
    RGB8,
>)
    ensures
        r@.len() == leds@.len(),
        forall|i: int|
            0 <= i < leds@.len() ==> #[trigger] r@[i] == processed(
                leds@[i],
                if i == 0 {
                    status_level(brightness_percent)
                } else {
                    pixel_level(brightness_percent, is_light_on)
                },
            ),
{
    let status: u8 = brightness_percent.saturating_add(100);
    let pixel: u8 = if is_light_on {
        brightness_percent
    } else {
        0
    };
    let mut r: Vec<RGB8> = Vec::new();
    let mut i: usize = 0;
    while i < leds.len()
        invariant
            i <= leds@.len(),
            status == status_level(brightness_percent),
            pixel == pixel_level(brightness_percent, is_light_on),
            r@.len() == i,
            forall|j: int|
                0 <= j < i ==> #[trigger] r@[j] == processed(
                    leds@[j],
                    if j == 0 {
                        status
                    } else {
                        pixel
                    },
                ),
        decreases leds@.len() - i,
    {
        let level: u8 = if i == 0 {
            status
        } else {
            pixel
        };
        r.push(colors::brightness(colors::gamma(leds[i]), level));
        i = i + 1;
    }
    r
}

/// With the light off, every pixel is dark.
pub proof fn lemma_dark_when_off(c: RGB8, brightness_percent: u8)
    ensures
        processed(c, pixel_level(brightness_percent, false)) == util::spec_black(),
{
    let (r, g, b) = (
        colors::gamma_corrected(c.r),
        colors::gamma_corrected(c.g),
        colors::gamma_corrected(c.b),
    );
    assert(r as int * 1 / 256 == 0);
    assert(g as int * 1 / 256 == 0);
    assert(b as int * 1 / 256 == 0);
}

/// The largest of the three brightnesses of a configuration.
pub open spec fn max_brightness(c: DeviceConfig) -> u32 {
    let sun = c.sunlight_auto_brightness;
    let most = if c.brightness_percent >= sun.day_brightness_percent {
        c.brightness_percent
    } else {
        sun.day_brightness_percent
    };
    if most >= sun.night_brightness_percent {
        most
    } else {
        sun.night_brightness_percent
    }
}

/// The smaller one of two numbers.
pub open spec fn smaller(a: u32, b: u32) -> u32 {
    if a <= b {
        a
    } else {
        b
    }
}

/// A configuration whose brightnesses are five percent below what the largest of them was.
pub open spec fn dimmer(c: DeviceConfig) -> DeviceConfig {
    let limit = if max_brightness(c) >= 5 {
        (max_brightness(c) - 5) as u32
    } else {
        0
    };
    DeviceConfig {
        brightness_percent: smaller(c.brightness_percent, limit),
        sunlight_auto_brightness: SunlightAutoBrightness {
            day_brightness_percent: smaller(
                c.sunlight_auto_brightness.day_brightness_percent,
                limit,
            ),
            night_brightness_percent: smaller(
                c.sunlight_auto_brightness.night_brightness_percent,
                limit,
            ),
            ..c.sunlight_auto_brightness
        },
        ..c
    }
}

fn min(a: u32, b: u32) -> (m: u32)
    ensures
        m == smaller(a, b),
{
    if a <= b {
        a
    } else {
        b
    }
}

/// Reduces the configured brightnesses by one step, toward the limit on the current.
pub fn reduce_brightness(persist: &mut PersistSettings, fx: &mut Effects)
    ensures
        *final(persist) == (PersistSettings {
            config: dimmer(old(persist).config),
            ..*old(persist)
        }),
        final(fx)@ == persist::stored_if(old(fx)@, max_brightness(old(persist).config) > 0),
{
    let manual: u32 = persist.config.brightness_percent;
    let sun = persist.config.sunlight_auto_brightness;
    let most: u32 = if manual >= sun.day_brightness_percent {
        manual
    } else {
        sun.day_brightness_percent
    };
    let most: u32 = if most >= sun.night_brightness_percent {
        most
    } else {
        sun.night_brightness_percent
    };
    let limit: u32 = most.saturating_sub(5);
    persist.config.brightness_percent = min(manual, limit);
    persist.config.sunlight_auto_brightness = SunlightAutoBrightness {
        enabled: sun.enabled,
        day_brightness_percent: min(sun.day_brightness_percent, limit),
        night_brightness_percent: min(sun.night_brightness_percent, limit),
    };
    let _ = persist::note_update(most > 0, fx);
}

/// A step reduces the largest brightness by five percent, or to nothing, and raises none.
pub proof fn lemma_reduction_steps_down(c: DeviceConfig)
    ensures
        max_brightness(dimmer(c)) == (if max_brightness(c) >= 5 {
            (max_brightness(c) - 5) as u32
        } else {
            0
        }),
        dimmer(c).brightness_percent <= c.brightness_percent,
        dimmer(c).sunlight_auto_brightness.day_brightness_percent
            <= c.sunlight_auto_brightness.day_brightness_percent,
        dimmer(c).sunlight_auto_brightness.night_brightness_percent
            <= c.sunlight_auto_brightness.night_brightness_percent,
{
}

/// Turning the pixels off leaves the status LED as it is and makes all others dark.
pub proof fn lemma_darkened(leds: Seq<RGB8>, i: int)
    requires
        0 <= i < leds.len(),
    ensures
        darkened(leds).len() == leds.len(),
        i == 0 ==> darkened(leds)[i] == leds[i],
        i > 0 ==> darkened(leds)[i] == (RGB8 { r: 0, g: 0, b: 0 }),
{
}

/// What is to be shown on the pixels first ends what is shown there. Turning them off takes only an
/// update of the LEDs; all else is an animation, with the color or the progress that was asked for.
pub proof fn lemma_pixels_effects(pixels: LedPixels)
    ensures
        pixels_effects(pixels).len() == 2,
        pixels_effects(pixels)[0] == Effect::CancelPixelsAnimation,
        pixels == LedPixels::Off <==> pixels_effects(pixels)[1] == Effect::UpdateLeds,
        pixels_effects(pixels)[1] matches Effect::StartPixelsAnimation(event) ==> (match event {
            LedPixelsAnimationEvent::PlayStartup(color) => pixels == LedPixels::StartupAnimation(
                color,
            ),
            LedPixelsAnimationEvent::ProgressPercent(p) => pixels == LedPixels::ProgressPercent(p),
            LedPixelsAnimationEvent::FadeOut => pixels == LedPixels::FadeOut,
            LedPixelsAnimationEvent::Identify => pixels == LedPixels::Identify,
            LedPixelsAnimationEvent::TestMode => pixels == LedPixels::TestMode,
            LedPixelsAnimationEvent::DemoMode => pixels == LedPixels::DemoMode,
        }),
        pixels != LedPixels::Off ==> pixels_effects(pixels)[1] is StartPixelsAnimation,
{
}

/// The status LED is one hundred levels brighter than the pixels, as far as that goes, and does not
/// depend on the light. The pixels are as bright as set with the light on, and dark without.
pub proof fn lemma_levels(brightness_percent: u8, is_light_on: bool)
    ensures
        brightness_percent <= 155 ==> status_level(brightness_percent) - brightness_percent == 100,
        brightness_percent >= 155 ==> status_level(brightness_percent) == 255,
        pixel_level(brightness_percent, true) == brightness_percent,
        pixel_level(brightness_percent, false) == 0,
{
}

/// Each channel goes to the LEDs by itself, corrected for the eye and then dimmed: in full at the
/// highest level.
pub proof fn lemma_processed(c: RGB8, level: u8)
    ensures
        ({
            let p = processed(c, level);
            let dims = |out: u8, channel: u8|
                out * 256 <= colors::gamma_corrected(channel) * (level + 1) < (out + 1) * 256;
            &&& dims(p.r, c.r)
            &&& dims(p.g, c.g)
            &&& dims(p.b, c.b)
        }),
{
    let (r, g, b) = (
        colors::gamma_corrected(c.r) as int,
        colors::gamma_corrected(c.g) as int,
        colors::gamma_corrected(c.b) as int,
    );
    let l = level as int + 1;
    assert(0 <= r * l < 65536 && 0 <= g * l < 65536 && 0 <= b * l < 65536) by (nonlinear_arith)
        requires
            0 <= r <= 255,
            0 <= g <= 255,
            0 <= b <= 255,
            0 < l <= 256,
    ;
}

/// The brightness in force is the automatic one as long as there is one.
pub proof fn lemma_brightness_in_force(session: SessionSettings, persist: PersistSettings)
    requires
        persist.config.brightness_percent <= 255,
    ensures
        session.auto_brightness_percent matches Some(percent) ==> brightness_in_force(
            session,
            persist,
        ) == percent,
        session.auto_brightness_percent is None ==> brightness_in_force(session, persist)
            == persist.config.brightness_percent,
{
}

/// The largest brightness is one of the three, and none is larger. A reduction leaves alone those
/// that are five percent below it or more, brings the others down to there, and changes nothing
/// else.
pub proof fn lemma_reduction_by_five(c: DeviceConfig, largest: u32)
    requires
        c.brightness_percent <= largest,
        c.sunlight_auto_brightness.day_brightness_percent <= largest,
        c.sunlight_auto_brightness.night_brightness_percent <= largest,
        c.brightness_percent == largest || c.sunlight_auto_brightness.day_brightness_percent
            == largest || c.sunlight_auto_brightness.night_brightness_percent == largest,
    ensures
        max_brightness(c) == largest,
        ({
            let after = dimmer(c);
            let (sun, sun_after) = (c.sunlight_auto_brightness, after.sunlight_auto_brightness);
            let reduced = |before: u32, after: u32|
                {
                    &&& before + 5 <= largest ==> after == before
                    &&& before + 5 > largest && largest >= 5 ==> after + 5 == largest
                    &&& largest < 5 ==> after == 0
                };
            &&& reduced(c.brightness_percent, after.brightness_percent)
            &&& reduced(sun.day_brightness_percent, sun_after.day_brightness_percent)
            &&& reduced(sun.night_brightness_percent, sun_after.night_brightness_percent)
            &&& sun_after.enabled == sun.enabled
            &&& after == (DeviceConfig {
                brightness_percent: after.brightness_percent,
                sunlight_auto_brightness: sun_after,
                ..c
            })
        }),
{
}

/// The startup animation is in amber.
pub proof fn lemma_amber()
    ensures
        LedColor::Amber.rgb() == (RGB8 { r: 255, g: 163, b: 108 }),
{
}

} // verus!
