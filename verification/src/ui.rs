//! What the buttons do.

use vstd::prelude::*;

use crate::buttons::{Button, ButtonPress, ButtonsPressedState};
use crate::config::ProductConfig;
use crate::device::Device;
use crate::display::leds;
use crate::display::leds::LedPixels;
use crate::effects::{Effect, Effects};
use crate::net::wifi_net;
use crate::net::ws_client;
use crate::net::ws_client::WsClientNotify;
use crate::proto::{ColorMode, DeviceConfig};
use crate::store::app_settings::persist;
use crate::store::app_settings::persist::PersistSettings;
use crate::store::app_settings::session::SessionSettings;
use crate::store::ota;
use crate::store::ota::OtaEvent;
use crate::store::transit_data;
use crate::store::transit_data::TransitDataStore;

verus! {

/// What is left to do once the pixels have faded out.
#[derive(Debug, Copy, Clone, PartialEq, Eq, Structural)]
pub enum FollowUp {
    Nothing,
    /// Show the demo.
    ShowDemo,
    /// Show the demo if the device is not set up.
    ShowDemoUnlessProvisioned,
}

/// Transit data after the configuration changed, if there is any.
pub open spec fn transit_outdated(t: Option<TransitDataStore>, now_instant_ms: u32) -> Option<
    TransitDataStore,
> {
    match t {
        Some(s) => Some(transit_data::outdated(s, now_instant_ms)),
        None => None,
    }
}

/// The settings with another brightness.
pub open spec fn with_brightness(s: PersistSettings, percent: u32) -> PersistSettings {
    PersistSettings { config: DeviceConfig { brightness_percent: percent, ..s.config }, ..s }
}

/// The settings with another color mode.
pub open spec fn with_color_mode(s: PersistSettings, mode: ColorMode) -> PersistSettings {
    PersistSettings { config: DeviceConfig { color_mode: mode, ..s.config }, ..s }
}

/// Five percent more, a hundred at most.
pub open spec fn brightness_up(percent: u32) -> u32 {
    if percent >= 95 {
        100
    } else {
        (percent + 5) as u32
    }
}

/// Five percent less, five at least.
pub open spec fn brightness_down(percent: u32) -> u32 {
    if percent <= 10 {
        5
    } else {
        (percent - 5) as u32
    }
}

/// The device with another brightness, and what that asks for: nothing if it is the same.
pub open spec fn brightness_set(
    before: Device,
    after: Device,
    fx: Seq<Effect>,
    percent: u32,
    now_instant_ms: u32,
) -> bool {
    let changed = before.persist.config.brightness_percent != percent;
    &&& after.persist == with_brightness(before.persist, percent)
    &&& after.session == before.session
    &&& after.leds == before.leds
    &&& after.transit == (if changed {
        transit_outdated(before.transit, now_instant_ms)
    } else {
        before.transit
    })
    &&& fx == (if changed {
        seq![
            Effect::StorePersistSettings,
            Effect::UpdateLeds,
            Effect::Notify(WsClientNotify::Config),
            Effect::RenderNow,
        ]
    } else {
        Seq::empty()
    })
}

/// What a short press does: up and down change the brightness, the middle button turns the light
/// on or off, against the timer.
pub open spec fn short_pressed(
    button: Button,
    before: Device,
    after: Device,
    fx: Seq<Effect>,
    now_instant_ms: u32,
) -> bool {
    match button {
        Button::Up => brightness_set(
            before,
            after,
            fx,
            brightness_up(before.persist.config.brightness_percent),
            now_instant_ms,
        ),
        Button::Down => brightness_set(
            before,
            after,
            fx,
            brightness_down(before.persist.config.brightness_percent),
            now_instant_ms,
        ),
        Button::Middle => {
            &&& after.session == (SessionSettings {
                light_on: !before.session.light_on,
                light_on_override: Some(!before.session.light_on),
                ..before.session
            })
            &&& after.persist == before.persist
            &&& after.transit == before.transit
            &&& after.leds == before.leds
            &&& fx == leds::session_status_effects(after.session, after.persist).push(
                Effect::Notify(WsClientNotify::Status),
            )
        },
    }
}

fn set_brightness(device: &mut Device, percent: u32, now_instant_ms: u32, fx: &mut Effects)
    ensures
        final(fx)@.len() >= old(fx)@.len(),
        final(fx)@.take(old(fx)@.len() as int) == old(fx)@,
        brightness_set(
            *old(device),
            *final(device),
            final(fx)@.skip(old(fx)@.len() as int),
            percent,
            now_instant_ms,
        ),
{
    let changed = device.persist.config.brightness_percent != percent;
    device.persist.config.brightness_percent = percent;
    if persist::note_update(changed, fx) {
        leds::update(fx);
        ws_client::send_config(fx);
        transit_data::on_config_updated(&mut device.transit, now_instant_ms, fx);
    }
    assert(fx@.take(old(fx)@.len() as int) =~= old(fx)@);
    assert(fx@.skip(old(fx)@.len() as int) =~= if changed {
        seq![
            Effect::StorePersistSettings,
            Effect::UpdateLeds,
            Effect::Notify(WsClientNotify::Config),
            Effect::RenderNow,
        ]
    } else {
        Seq::empty()
    });
}

/// Handles a short press.
pub fn on_short_press(device: &mut Device, button: Button, now_instant_ms: u32, fx: &mut Effects)
    ensures
        final(fx)@.len() >= old(fx)@.len(),
        final(fx)@.take(old(fx)@.len() as int) == old(fx)@,
        short_pressed(
            button,
            *old(device),
            *final(device),
            final(fx)@.skip(old(fx)@.len() as int),
            now_instant_ms,
        ),
{
    let percent: u32 = device.persist.config.brightness_percent;
    match button {
        Button::Up => {
            let up: u32 = if percent >= 95 {
                100
            } else {
                percent + 5
            };
            set_brightness(device, up, now_instant_ms, fx);
        },
        Button::Down => {
            let down: u32 = if percent <= 10 {
                5
            } else {
                percent - 5
            };
            set_brightness(device, down, now_instant_ms, fx);
        },
        Button::Middle => {
            let on = !device.session.light_on;
            device.session.light_on = on;
            device.session.light_on_override = Some(on);
            leds::set_status_led_from_session(&device.session, &device.persist, fx);
            ws_client::send_status(fx);
            assert(fx@.take(old(fx)@.len() as int) =~= old(fx)@);
            assert(fx@.skip(old(fx)@.len() as int) =~= leds::session_status_effects(
                device.session,
                device.persist,
            ).push(Effect::Notify(WsClientNotify::Status)));
        },
    }
}

/// The color mode after a change: between the colors of lines and those of delays.
pub open spec fn next_color_mode(mode: ColorMode) -> ColorMode {
    if mode == ColorMode::Original {
        ColorMode::DelayHeatmap
    } else {
        ColorMode::Original
    }
}

/// What a long press does: up changes the color mode, the middle button starts provisioning, and
/// down starts a firmware update if there is one.
pub open spec fn long_pressed(
    button: Button,
    before: Device,
    after: Device,
    fx: Seq<Effect>,
    now_instant_ms: u32,
) -> bool {
    match button {
        Button::Up => {
            &&& after.persist == with_color_mode(
                before.persist,
                next_color_mode(before.persist.config.color_mode),
            )
            &&& after.session == before.session
            &&& after.leds == before.leds
            &&& after.transit == transit_outdated(before.transit, now_instant_ms)
            &&& fx == seq![
                Effect::StorePersistSettings,
                Effect::Notify(WsClientNotify::Config),
                Effect::RenderNow,
            ]
        },
        Button::Middle => {
            &&& after.persist == wifi_net::without_credentials(before.persist)
            &&& after.session == before.session
            &&& after.leds@ == before.leds@
            &&& after.transit is None
            &&& fx == wifi_net::provisioning_effects(wifi_net::has_credential(before.persist))
        },
        Button::Down => {
            &&& after == before
            &&& match before.session.firmware_update_available {
                Some(update) if !before.session.updating_firmware => ota::update_asked(
                    Seq::empty(),
                    fx,
                    update,
                ),
                _ => fx == Seq::<Effect>::empty(),
            }
        },
    }
}

/// What is left to do after a long press.
pub open spec fn long_press_follow_up(button: Button) -> FollowUp {
    if button == Button::Middle {
        FollowUp::ShowDemo
    } else {
        FollowUp::Nothing
    }
}

/// Handles a long press.
pub fn on_long_press(
    device: &mut Device,
    button: Button,
    now_instant_ms: u32,
    fx: &mut Effects,
) -> (r: FollowUp)
    ensures
        r == long_press_follow_up(button),
        final(fx)@.len() >= old(fx)@.len(),
        final(fx)@.take(old(fx)@.len() as int) == old(fx)@,
        long_pressed(
            button,
            *old(device),
            *final(device),
            final(fx)@.skip(old(fx)@.len() as int),
            now_instant_ms,
        ),
{
    let ghost n = fx@.len() as int;
    match button {
        Button::Up => {
            let mode = if device.persist.config.color_mode == ColorMode::Original {
                ColorMode::DelayHeatmap
            } else {
                ColorMode::Original
            };
            device.persist.config.color_mode = mode;
            let _ = persist::note_update(true, fx);
            ws_client::send_config(fx);
            transit_data::on_config_updated(&mut device.transit, now_instant_ms, fx);
            assert(fx@.take(n) =~= old(fx)@);
            assert(fx@.skip(n) =~= seq![
                Effect::StorePersistSettings,
                Effect::Notify(WsClientNotify::Config),
                Effect::RenderNow,
            ]);
            FollowUp::Nothing
        },
        Button::Middle => {
            wifi_net::start_provisioning(
                &mut device.persist,
                &mut device.transit,
                &mut device.leds,
                fx,
            );
            assert(fx@.take(n) =~= old(fx)@);
            assert(fx@.skip(n) =~= wifi_net::provisioning_effects(
                wifi_net::has_credential(old(device).persist),
            ));
            FollowUp::ShowDemo
        },
        Button::Down => {
            if let Some(update) = &device.session.firmware_update_available {
                ota::start_firmware_update(update, &device.session, fx);
                proof {
                    if !device.session.updating_firmware {
                        lemma_update_asked_skip(old(fx)@, fx@, *update);
                    }
                }
            }
            assert(fx@.take(n) =~= old(fx)@);
            assert(old(fx)@.skip(n) =~= Seq::empty());
            FollowUp::Nothing
        },
    }
}

/// What was asked for behind `before` was asked for.
pub proof fn lemma_update_asked_skip(
    before: Seq<Effect>,
    after: Seq<Effect>,
    update: crate::proto::DeviceUpdate,
)
    requires
        ota::update_asked(before, after, update),
    ensures
        after.len() == before.len() + 2,
        after.take(before.len() as int) == before,
        ota::update_asked(Seq::empty(), after.skip(before.len() as int), update),
{
    let u = choose|u: crate::proto::DeviceUpdate| #[trigger]
        u.same(update) && after == before.push(Effect::OtaCancel).push(
            Effect::OtaSignal(OtaEvent::StartUpdate(u)),
        );
    assert(after.take(before.len() as int) =~= before);
    assert(after.skip(before.len() as int) =~= Seq::<Effect>::empty().push(Effect::OtaCancel).push(
        Effect::OtaSignal(OtaEvent::StartUpdate(u)),
    ));
}

/// What a combined press does: all three buttons start and end the test of the LEDs, the outer two
/// reset the device.
pub open spec fn combined_pressed(
    buttons: ButtonsPressedState,
    before: Device,
    after: Device,
    fx: Seq<Effect>,
    product: ProductConfig,
) -> bool {
    if buttons.up && buttons.down && buttons.select {
        let testing = !before.session.test_mode_active;
        &&& after.session == (SessionSettings { test_mode_active: testing, ..before.session })
        &&& after.persist == before.persist
        &&& after.transit == before.transit
        &&& after.leds@ == before.leds@
        &&& fx == leds::pixels_effects(
            if testing {
                LedPixels::TestMode
            } else {
                LedPixels::FadeOut
            },
        )
    } else if buttons.up && buttons.down {
        &&& persist::is_default(after.persist, product)
        &&& after.session == before.session
        &&& after.transit == before.transit
        &&& after.leds == before.leds
        &&& fx == persist::stored_if(Seq::empty(), !before.persist.same(after.persist)).push(
            Effect::OtaCancel,
        ).push(Effect::OtaSignal(OtaEvent::BootFromFactory))
    } else {
        after == before && fx == Seq::<Effect>::empty()
    }
}

/// What is left to do after a combined press.
pub open spec fn combined_press_follow_up(
    buttons: ButtonsPressedState,
    before: Device,
) -> FollowUp {
    if buttons.up && buttons.down && buttons.select && before.session.test_mode_active {
        FollowUp::ShowDemoUnlessProvisioned
    } else {
        FollowUp::Nothing
    }
}

/// Handles a combined press.
pub fn on_combined_press(
    device: &mut Device,
    buttons: ButtonsPressedState,
    product: &ProductConfig,
    fx: &mut Effects,
) -> (r: FollowUp)
    ensures
        r == combined_press_follow_up(buttons, *old(device)),
        final(fx)@.len() >= old(fx)@.len(),
        final(fx)@.take(old(fx)@.len() as int) == old(fx)@,
        combined_pressed(
            buttons,
            *old(device),
            *final(device),
            final(fx)@.skip(old(fx)@.len() as int),
            *product,
        ),
{
    let ghost n = fx@.len() as int;
    if buttons.up && buttons.select && buttons.down {
        let testing = !device.session.test_mode_active;
        device.session.test_mode_active = testing;
        let pixels = if testing {
            LedPixels::TestMode
        } else {
            LedPixels::FadeOut
        };
        leds::set_pixels(pixels, &mut device.leds, fx);
        assert(fx@.take(n) =~= old(fx)@);
        assert(fx@.skip(n) =~= leds::pixels_effects(pixels));
        if testing {
            FollowUp::Nothing
        } else {
            FollowUp::ShowDemoUnlessProvisioned
        }
    } else if buttons.up && buttons.down {
        let fresh = persist::persist_settings_default(product);
        let changed = !device.persist.is_same(&fresh);
        device.persist = fresh;
        let _ = persist::note_update(changed, fx);
        ota::boot_from_factory(fx);
        assert(fx@.take(n) =~= old(fx)@);
        assert(fx@.skip(n) =~= persist::stored_if(Seq::empty(), changed).push(
            Effect::OtaCancel,
        ).push(Effect::OtaSignal(OtaEvent::BootFromFactory)));
        FollowUp::Nothing
    } else {
        assert(fx@.take(n) =~= old(fx)@);
        assert(fx@.skip(n) =~= Seq::empty());
        FollowUp::Nothing
    }
}

/// What a press does.
pub open spec fn pressed(
    press: ButtonPress,
    before: Device,
    after: Device,
    fx: Seq<Effect>,
    now_instant_ms: u32,
    product: ProductConfig,
) -> bool {
    match press {
        ButtonPress::Short(button) => short_pressed(button, before, after, fx, now_instant_ms),
        ButtonPress::Long(button) => long_pressed(button, before, after, fx, now_instant_ms),
        ButtonPress::CombinedLong(buttons) => combined_pressed(
            buttons,
            before,
            after,
            fx,
            product,
        ),
    }
}

/// Handles a press.
pub fn on_button_press(
    device: &mut Device,
    press: ButtonPress,
    now_instant_ms: u32,
    product: &ProductConfig,
    fx: &mut Effects,
) -> (r: FollowUp)
    ensures
        r == (match press {
            ButtonPress::Short(_) => FollowUp::Nothing,
            ButtonPress::Long(button) => long_press_follow_up(button),
            ButtonPress::CombinedLong(buttons) => combined_press_follow_up(buttons, *old(device)),
        }),
        final(fx)@.len() >= old(fx)@.len(),
        final(fx)@.take(old(fx)@.len() as int) == old(fx)@,
        pressed(
            press,
            *old(device),
            *final(device),
            final(fx)@.skip(old(fx)@.len() as int),
            now_instant_ms,
            *product,
        ),
{
    match press {
        ButtonPress::Short(button) => {
            on_short_press(device, button, now_instant_ms, fx);
            FollowUp::Nothing
        },
        ButtonPress::Long(button) => on_long_press(device, button, now_instant_ms, fx),
        ButtonPress::CombinedLong(buttons) => on_combined_press(device, buttons, product, fx),
    }
}

/// Does what is left to do once the pixels have faded out.
pub fn follow_up(device: &mut Device, what: FollowUp, fx: &mut Effects)
    ensures
        final(device).persist == old(device).persist,
        final(device).session == old(device).session,
        final(device).transit == old(device).transit,
        final(device).leds@ == old(device).leds@,
        final(fx)@ == (if what == FollowUp::ShowDemo || (what
            == FollowUp::ShowDemoUnlessProvisioned && !old(device).persist.is_provisioned()) {
            old(fx)@ + leds::pixels_effects(LedPixels::DemoMode)
        } else {
            old(fx)@
        }),
{
    let show = match what {
        FollowUp::Nothing => false,
        FollowUp::ShowDemo => true,
        FollowUp::ShowDemoUnlessProvisioned => {
            !device.persist.has_credentials_and_is_authenticated()
        },
    };
    if show {
        leds::set_pixels(LedPixels::DemoMode, &mut device.leds, fx);
    }
}

/// By the buttons, the brightness stays between five and a hundred percent once it is there, and
/// a step up after a step down leads back unless it met an end.
pub proof fn lemma_brightness_steps(percent: u32)
    ensures
        5 <= percent <= 100 ==> 5 <= brightness_up(percent) <= 100 && 5 <= brightness_down(percent)
            <= 100,
        10 <= percent <= 100 ==> brightness_up(brightness_down(percent)) == percent,
        5 <= percent <= 95 ==> brightness_down(brightness_up(percent)) == percent,
{
}

/// Turning the light twice leaves it as it was.
pub proof fn lemma_light_toggles_back(
    first: Device,
    second: Device,
    third: Device,
    fx1: Seq<Effect>,
    fx2: Seq<Effect>,
    now1: u32,
    now2: u32,
)
    requires
        short_pressed(Button::Middle, first, second, fx1, now1),
        short_pressed(Button::Middle, second, third, fx2, now2),
    ensures
        third.session.light_on == first.session.light_on,
        third.session.light_on_override == Some(first.session.light_on),
{
}

/// A short press of an outer button changes the brightness by five percent, up or down, but not
/// above a hundred or below five, and nothing else of the settings. If that changes it, it is
/// stored, shown and told to the server; else nothing happens.
pub proof fn lemma_brightness_buttons(
    button: Button,
    before: Device,
    after: Device,
    fx: Seq<Effect>,
    now_instant_ms: u32,
)
    requires
        button == Button::Up || button == Button::Down,
        short_pressed(button, before, after, fx, now_instant_ms),
    ensures
        ({
            let (a, b) = (
                before.persist.config.brightness_percent,
                after.persist.config.brightness_percent,
            );
            &&& button == Button::Up && a <= 95 ==> b == a + 5
            &&& button == Button::Up && a > 95 ==> b == 100
            &&& button == Button::Down && a >= 10 ==> b == a - 5
            &&& button == Button::Down && a < 10 ==> b == 5
            &&& after.persist == (PersistSettings {
                config: DeviceConfig { brightness_percent: b, ..before.persist.config },
                ..before.persist
            })
            &&& after.session == before.session
            &&& a == b ==> fx.len() == 0 && after.transit == before.transit
            &&& a != b ==> {
                &&& fx.contains(Effect::StorePersistSettings)
                &&& fx.contains(Effect::UpdateLeds)
                &&& fx.contains(Effect::Notify(WsClientNotify::Config))
                &&& fx.contains(Effect::RenderNow)
                &&& fx.len() == 4
            }
        }),
{
    if fx.len() == 4 {
        assert(fx[0] == Effect::StorePersistSettings);
        assert(fx[1] == Effect::UpdateLeds);
        assert(fx[2] == Effect::Notify(WsClientNotify::Config));
        assert(fx[3] == Effect::RenderNow);
    }
}

/// A short press of the middle button turns the light from on to off or from off to on, holds it so
/// against the timer, and tells the server. The settings stay as they are.
pub proof fn lemma_light_button(
    before: Device,
    after: Device,
    fx: Seq<Effect>,
    now_instant_ms: u32,
)
    requires
        short_pressed(Button::Middle, before, after, fx, now_instant_ms),
    ensures
        after.session.light_on != before.session.light_on,
        after.session.light_on_override == Some(after.session.light_on),
        after.session == (SessionSettings {
            light_on: after.session.light_on,
            light_on_override: after.session.light_on_override,
            ..before.session
        }),
        after.persist == before.persist,
        after.transit == before.transit,
        fx.last() == Effect::Notify(WsClientNotify::Status),
{
}

/// A long press of the upper button changes between the colors of lines and those of delays, from
/// any other colors to those of lines, and changes no other setting. The new setting is stored and
/// told to the server.
pub proof fn lemma_color_button(
    before: Device,
    after: Device,
    fx: Seq<Effect>,
    now_instant_ms: u32,
)
    requires
        long_pressed(Button::Up, before, after, fx, now_instant_ms),
    ensures
        before.persist.config.color_mode == ColorMode::Original <==>
            after.persist.config.color_mode == ColorMode::DelayHeatmap,
        before.persist.config.color_mode != ColorMode::Original <==>
            after.persist.config.color_mode == ColorMode::Original,
        after.persist == (PersistSettings {
            config: DeviceConfig {
                color_mode: after.persist.config.color_mode,
                ..before.persist.config
            },
            ..before.persist
        }),
        after.session == before.session,
        fx.contains(Effect::StorePersistSettings),
        fx.contains(Effect::Notify(WsClientNotify::Config)),
        fx.contains(Effect::RenderNow),
{
    assert(fx[0] == Effect::StorePersistSettings);
    assert(fx[1] == Effect::Notify(WsClientNotify::Config));
    assert(fx[2] == Effect::RenderNow);
}

/// A long press of the middle button makes the device forget its network, its tokens and the
/// transit data, and keeps the configuration. The demo follows.
pub proof fn lemma_provisioning_button(
    before: Device,
    after: Device,
    fx: Seq<Effect>,
    now_instant_ms: u32,
)
    requires
        long_pressed(Button::Middle, before, after, fx, now_instant_ms),
    ensures
        after.persist.wifi_ssid is None,
        after.persist.wifi_password is None,
        after.persist.prov_token is None,
        after.persist.access_token is None,
        after.persist.config == before.persist.config,
        after.session == before.session,
        after.transit is None,
        long_press_follow_up(Button::Middle) == FollowUp::ShowDemo,
        long_press_follow_up(Button::Up) == FollowUp::Nothing,
        long_press_follow_up(Button::Down) == FollowUp::Nothing,
        fx.contains(Effect::QuitWs(Ok(()))),
        fx.contains(Effect::WifiSignal(wifi_net::WifiNetEvent::StartProvisioning)),
        before.persist.wifi_ssid is Some || before.persist.wifi_password is Some
            || before.persist.prov_token is Some || before.persist.access_token is Some ==> fx[0]
            == Effect::StorePersistSettings,
{
    let n: int = if wifi_net::has_credential(before.persist) {
        1
    } else {
        0
    };
    assert(fx[n] == Effect::QuitWs(Ok(())));
    assert(fx[n + 1] == Effect::WifiSignal(wifi_net::WifiNetEvent::StartProvisioning));
}

/// A long press of the lower button starts the firmware update that is at hand, unless one is in
/// progress already, and does nothing else.
pub proof fn lemma_update_button(
    before: Device,
    after: Device,
    fx: Seq<Effect>,
    now_instant_ms: u32,
)
    requires
        long_pressed(Button::Down, before, after, fx, now_instant_ms),
    ensures
        after == before,
        before.session.updating_firmware || before.session.firmware_update_available is None
            ==> fx.len() == 0,
        !before.session.updating_firmware && before.session.firmware_update_available is Some ==> {
            &&& fx.len() == 2
            &&& fx[0] == Effect::OtaCancel
            &&& fx[1] matches Effect::OtaSignal(OtaEvent::StartUpdate(u)) && u.same(
                before.session.firmware_update_available->0,
            )
        },
{
}

/// All three buttons held together start the test of the LEDs, or end it if it is on. The two outer
/// ones without the middle one bring back the settings of a new device and boot its first firmware.
/// Other buttons held together do nothing.
pub proof fn lemma_combined_buttons(
    buttons: ButtonsPressedState,
    before: Device,
    after: Device,
    fx: Seq<Effect>,
    product: ProductConfig,
)
    requires
        combined_pressed(buttons, before, after, fx, product),
    ensures
        buttons.up && buttons.select && buttons.down ==> {
            &&& after.session.test_mode_active != before.session.test_mode_active
            &&& after.session == (SessionSettings {
                test_mode_active: after.session.test_mode_active,
                ..before.session
            })
            &&& after.persist == before.persist
            &&& after.transit == before.transit
            &&& fx == leds::pixels_effects(
                if after.session.test_mode_active {
                    LedPixels::TestMode
                } else {
                    LedPixels::FadeOut
                },
            )
            &&& combined_press_follow_up(buttons, before) == (if before.session.test_mode_active {
                FollowUp::ShowDemoUnlessProvisioned
            } else {
                FollowUp::Nothing
            })
        },
        buttons.up && !buttons.select && buttons.down ==> {
            &&& persist::is_default(after.persist, product)
            &&& after.session == before.session
            &&& fx.last() == Effect::OtaSignal(OtaEvent::BootFromFactory)
            &&& !before.persist.same(after.persist) ==> fx[0] == Effect::StorePersistSettings
        },
        !(buttons.up && buttons.down) ==> after == before && fx.len() == 0,
        !(buttons.up && buttons.select && buttons.down) ==> combined_press_follow_up(
            buttons,
            before,
        ) == FollowUp::Nothing,
{
}

/// What a button is not for stays as it is. A button that changes the colors takes what is rendered
/// for outdated: it keeps the data.
pub proof fn lemma_what_buttons_leave(
    before: Device,
    after: Device,
    fx: Seq<Effect>,
    now_instant_ms: u32,
)
    ensures
        short_pressed(Button::Middle, before, after, fx, now_instant_ms) ==> {
            &&& after.persist == before.persist
            &&& after.transit == before.transit
            &&& after.leds == before.leds
        },
        long_pressed(Button::Up, before, after, fx, now_instant_ms) ==> {
            &&& after.session == before.session
            &&& after.leds == before.leds
            &&& after.transit is Some <==> before.transit is Some
            &&& before.transit matches Some(s) ==> after.transit->0.data == s.data
        },
{
}

} // verus!
