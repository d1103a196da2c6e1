//! What the device does when it starts.

use vstd::prelude::*;

use crate::display::leds;
use crate::display::leds::{LedColor, LedPixels, LedStatus};
use crate::effects::{Effect, Effects};
use crate::net::wifi_net;
use crate::net::wifi_net::WifiNetEvent;
use crate::store::app_settings::persist::PersistSettings;
use crate::store::ota;
use crate::store::ota::OtaEvent;
use crate::store::transit_data;
use crate::store::transit_data::TransitDataStore;
use crate::util::RGB8;

verus! {

/// How long to wait before LEDs are driven whose timing matters.
pub const LED_DELAY_MS: u64 = 2900;

/// Goes to the network that the device knows, or waits for one if it knows none. Returns whether it
/// knows one.
pub fn start_network(
    settings: &mut PersistSettings,
    store: &mut Option<TransitDataStore>,
    leds: &mut Vec<RGB8>,
    fx: &mut Effects,
) -> (is_provisioned: bool)
    ensures
        is_provisioned == old(settings).is_provisioned(),
        final(leds)@ == old(leds)@,
        if is_provisioned {
            &&& *final(settings) == *old(settings)
            &&& *final(store) == *old(store)
            &&& final(fx)@ == (old(fx)@ + leds::status_effects(LedStatus::Idle)).push(
                Effect::WifiSignal(WifiNetEvent::ConnectToAp),
            )
        } else {
            &&& *final(settings) == wifi_net::without_credentials(*old(settings))
            &&& *final(store) is None
            &&& final(fx)@ == old(fx)@ + leds::status_effects(LedStatus::Idle)
                + wifi_net::provisioning_effects(wifi_net::has_credential(*old(settings)))
        },
{
    leds::set_status(LedStatus::Idle, fx);
    let is_provisioned = settings.has_credentials_and_is_authenticated();
    if is_provisioned {
        wifi_net::connect_ap(fx);
    } else {
        wifi_net::start_provisioning(settings, store, leds, fx);
    }
    is_provisioned
}

/// Plays the startup animation, unless there is transit data by now. Returns whether it plays.
pub fn play_startup(
    store: &Option<TransitDataStore>,
    leds: &mut Vec<RGB8>,
    fx: &mut Effects,
) -> (plays: bool)
    ensures
        plays == (store is None),
        final(leds)@ == old(leds)@,
        final(fx)@ == (if plays {
            old(fx)@ + leds::pixels_effects(LedPixels::StartupAnimation(LedColor::Amber.rgb()))
        } else {
            old(fx)@
        }),
{
    if transit_data::is_set(store) {
        return false;
    }
    leds::set_pixels(LedPixels::StartupAnimation(LedColor::Amber.as_rgb8()), leds, fx);
    true
}

/// Goes on once the startup animation is over, if it played: a device that waits for a network shows
/// the demo. Then the firmware is known to work.
pub fn finish_startup(played: bool, is_provisioned: bool, leds: &mut Vec<RGB8>, fx: &mut Effects)
    ensures
        final(leds)@ == old(leds)@,
        final(fx)@ == (if played && !is_provisioned {
            old(fx)@ + leds::pixels_effects(LedPixels::DemoMode)
        } else {
            old(fx)@
        }).push(Effect::OtaCancel).push(Effect::OtaSignal(OtaEvent::InitBootPartition)),
{
    if played && !is_provisioned {
        leds::set_pixels(LedPixels::DemoMode, leds, fx);
    }
    ota::init_boot_partition(fx);
}

} // verus!
