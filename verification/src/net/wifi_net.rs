//! The wireless network.

use vstd::prelude::*;

use crate::display::leds;
use crate::display::leds::{LedPixels, LedStatus};
use crate::effects::{Effect, Effects};
use crate::net::ws_client;
use crate::store::app_settings::persist;
use crate::store::app_settings::persist::PersistSettings;
use crate::store::transit_data;
use crate::store::transit_data::TransitDataStore;
use crate::util;
use crate::util::RGB8;

verus! {

/// What the network controller is to do.
#[derive(Debug, Copy, Clone, PartialEq, Eq, Structural)]
pub enum WifiNetEvent {
    StartProvisioning,
    FinishProvisioning,
    ConnectToAp,
}

/// Settings without credentials.
pub open spec fn without_credentials(s: PersistSettings) -> PersistSettings {
    PersistSettings {
        wifi_ssid: None,
        wifi_password: None,
        prov_token: None,
        access_token: None,
        ..s
    }
}

/// Whether settings hold a credential.
pub open spec fn has_credential(s: PersistSettings) -> bool {
    s.wifi_ssid is Some || s.wifi_password is Some || s.prov_token is Some || s.access_token is Some
}

/// What the start of provisioning asks for.
pub open spec fn provisioning_effects(had_credential: bool) -> Seq<Effect> {
    persist::stored_if(Seq::empty(), had_credential) + seq![
        Effect::QuitWs(Ok(())),
        Effect::WifiSignal(WifiNetEvent::StartProvisioning),
    ] + leds::pixels_effects(LedPixels::FadeOut)
}

/// Starts to wait for credentials: forgets those that there are, and the transit data. Once the
/// pixels have faded out, the demo is shown.
pub fn start_provisioning(
    settings: &mut PersistSettings,
    store: &mut Option<TransitDataStore>,
    leds: &mut Vec<RGB8>,
    fx: &mut Effects,
)
    ensures
        *final(settings) == without_credentials(*old(settings)),
        !final(settings).is_provisioned(),
        *final(store) is None,
        final(leds)@ == old(leds)@,
        final(fx)@ == old(fx)@ + provisioning_effects(has_credential(*old(settings))),
{
    let changed = settings.wifi_ssid.is_some() || settings.wifi_password.is_some()
        || settings.prov_token.is_some() || settings.access_token.is_some();
    settings.clear_wifi_credentials_and_auth();
    let _ = persist::note_update(changed, fx);
    ws_client::quit(Ok(()), fx);
    transit_data::reset(store);
    fx.push(Effect::WifiSignal(WifiNetEvent::StartProvisioning));
    leds::set_pixels(LedPixels::FadeOut, leds, fx);
    assert(fx@ =~= old(fx)@ + provisioning_effects(changed));
}

pub fn finish_provisioning(fx: &mut Effects)
    ensures
        final(fx)@ == old(fx)@.push(Effect::WifiSignal(WifiNetEvent::FinishProvisioning)),
{
    fx.push(Effect::WifiSignal(WifiNetEvent::FinishProvisioning));
}

pub fn connect_ap(fx: &mut Effects)
    ensures
        final(fx)@ == old(fx)@.push(Effect::WifiSignal(WifiNetEvent::ConnectToAp)),
{
    fx.push(Effect::WifiSignal(WifiNetEvent::ConnectToAp));
}

// ---------------------------------------------------------------------------------------------
// The controller
// ---------------------------------------------------------------------------------------------

/// What the network hardware is to do.
#[derive(Debug, Copy, Clone, PartialEq, Eq, Structural)]
pub enum WifiAction {
    /// Leave the network, if `disconnect`, then open an access point of its own.
    OpenAccessPoint { disconnect: bool },
    /// Use the stored credentials.
    UseStoredCredentials,
    /// Connect to the network.
    Connect,
    /// Nothing.
    Nothing,
}

/// Decides what the network hardware is to do for an event.
pub fn on_wifi_event(event: WifiNetEvent, is_connected: bool, fx: &mut Effects) -> (a: WifiAction)
    ensures
        a == (match event {
            WifiNetEvent::StartProvisioning => WifiAction::OpenAccessPoint {
                disconnect: is_connected,
            },
            WifiNetEvent::FinishProvisioning => WifiAction::UseStoredCredentials,
            WifiNetEvent::ConnectToAp => if is_connected {
                WifiAction::Nothing
            } else {
                WifiAction::Connect
            },
        }),
        final(fx)@ == (match event {
            WifiNetEvent::StartProvisioning => old(fx)@ + leds::status_effects(LedStatus::Pairing),
            WifiNetEvent::FinishProvisioning => old(fx)@,
            WifiNetEvent::ConnectToAp => old(fx)@ + leds::status_effects(LedStatus::ConnectingWifi),
        }),
{
    match event {
        WifiNetEvent::StartProvisioning => {
            leds::set_status(LedStatus::Pairing, fx);
            WifiAction::OpenAccessPoint { disconnect: is_connected }
        },
        WifiNetEvent::FinishProvisioning => WifiAction::UseStoredCredentials,
        WifiNetEvent::ConnectToAp => {
            leds::set_status(LedStatus::ConnectingWifi, fx);
            if is_connected {
                WifiAction::Nothing
            } else {
                WifiAction::Connect
            }
        },
    }
}

/// How long to wait before another attempt to connect.
pub const RETRY_DELAY_MS: u64 = 1000;

/// Handles the outcome of an attempt to connect: after a failure there is another one.
pub fn on_connect_result(connected: bool, fx: &mut Effects) -> (retry: bool)
    ensures
        retry == !connected,
        final(fx)@ == (if connected {
            old(fx)@
        } else {
            old(fx)@ + leds::status_effects(LedStatus::WifiError)
        }),
{
    if !connected {
        leds::set_status(LedStatus::WifiError, fx);
    }
    !connected
}

/// Tries to connect again after the delay, unless something else was asked for meanwhile.
pub fn on_retry_delay_over(signaled: bool, fx: &mut Effects)
    ensures
        final(fx)@ == (if signaled {
            old(fx)@
        } else {
            old(fx)@.push(Effect::WifiSignal(WifiNetEvent::ConnectToAp))
        }),
{
    if !signaled {
        connect_ap(fx);
    }
}

/// Keeps the device connected once it is set up.
pub fn keep_connected(settings: &PersistSettings, is_connected: bool, fx: &mut Effects)
    ensures
        final(fx)@ == (if settings.is_provisioned() && !is_connected {
            old(fx)@.push(Effect::WifiSignal(WifiNetEvent::ConnectToAp))
        } else {
            old(fx)@
        }),
{
    if settings.has_credentials_and_is_authenticated() && !is_connected {
        connect_ap(fx);
    }
}

// ---------------------------------------------------------------------------------------------
// The name of the device
// ---------------------------------------------------------------------------------------------

/// The name of a device, after the last three bytes of its address.
pub open spec fn name_of(mac: Seq<u8>) -> Seq<char> {
    "LEDTransit-"@ + util::hex_upper(mac[3]) + util::hex_upper(mac[4]) + util::hex_upper(mac[5])
}

/// The name that the device gives to its access point and to itself.
pub fn device_name(mac: &[u8; 6]) -> (name: String)
    ensures
        name@ == name_of(mac@),
{
    let mut name = "LEDTransit-".to_owned();
    util::append_hex_upper(&mut name, mac[3]);
    util::append_hex_upper(&mut name, mac[4]);
    util::append_hex_upper(&mut name, mac[5]);
    name
}

/// Without credentials nothing is left of the network and of the tokens, and all else is kept. That
/// is stored if there was any.
pub proof fn lemma_credentials_forgotten(s: PersistSettings)
    ensures
        ({
            let after = without_credentials(s);
            &&& after.wifi_ssid is None && after.wifi_password is None && after.prov_token is None
                && after.access_token is None
            &&& after.config == s.config && after.magic == s.magic && after.version == s.version
            &&& has_credential(s) <==> after != s
            &&& provisioning_effects(has_credential(s)).contains(Effect::StorePersistSettings)
                <==> after != s
        }),
{
    let fx = provisioning_effects(has_credential(s));
    if has_credential(s) {
        assert(fx[0] == Effect::StorePersistSettings);
    } else {
        assert(fx.len() == 4);
        assert(fx[0] == Effect::QuitWs(Ok(())));
        assert(fx[1] == Effect::WifiSignal(WifiNetEvent::StartProvisioning));
        assert(fx[2] == leds::pixels_effects(LedPixels::FadeOut)[0]);
        assert(fx[3] == leds::pixels_effects(LedPixels::FadeOut)[1]);
    }
}

/// The name of a device ends with six digits that spell the last three bytes of its address, so two
/// devices have the same name only if they have these in common.
pub proof fn lemma_name_of_device(mac: Seq<u8>, other: Seq<u8>)
    requires
        mac.len() == 6,
        other.len() == 6,
    ensures
        name_of(mac).len() == 17,
        name_of(mac).take(11) == "LEDTransit-"@,
        name_of(mac).skip(11) == util::hex_upper(mac[3]) + util::hex_upper(mac[4])
            + util::hex_upper(mac[5]),
        name_of(mac) == name_of(other) <==> mac.skip(3) == other.skip(3),
{
    reveal_strlit("LEDTransit-");
    assert(name_of(mac).take(11) =~= "LEDTransit-"@);
    assert(name_of(mac).skip(11) =~= util::hex_upper(mac[3]) + util::hex_upper(mac[4])
        + util::hex_upper(mac[5]));
    let (a, b) = (name_of(mac), name_of(other));
    if a == b {
        assert(a[11] == b[11] && a[12] == b[12] && a[13] == b[13] && a[14] == b[14] && a[15]
            == b[15] && a[16] == b[16]);
        lemma_hex_tells_apart(mac[3], other[3]);
        lemma_hex_tells_apart(mac[4], other[4]);
        lemma_hex_tells_apart(mac[5], other[5]);
        assert(mac.skip(3) =~= other.skip(3));
    }
    if mac.skip(3) == other.skip(3) {
        assert(mac[3] == mac.skip(3)[0] && mac[4] == mac.skip(3)[1] && mac[5] == mac.skip(3)[2]);
        assert(other[3] == other.skip(3)[0] && other[4] == other.skip(3)[1] && other[5]
            == other.skip(3)[2]);
    }
}

proof fn lemma_hex_tells_apart(a: u8, b: u8)
    ensures
        util::hex_upper(a)[0] == util::hex_upper(b)[0] && util::hex_upper(a)[1]
            == util::hex_upper(b)[1] ==> a == b,
{
    util::lemma_hex_digits(a as int / 16);
    util::lemma_hex_digits(a as int % 16);
    util::lemma_hex_digits(b as int / 16);
    util::lemma_hex_digits(b as int % 16);
}

} // verus!
