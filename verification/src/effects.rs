//! What the library asks its surroundings to do, in order.

use vstd::prelude::*;

use crate::display::animations::{LedPixelsAnimationEvent, LedStatusAnimationEvent};
use crate::net::wifi_net::WifiNetEvent;
use crate::net::ws_client::{WsClientError, WsClientNotify};
use crate::store::ota::OtaEvent;
use crate::trace::Report;

verus! {

/// One thing to do.
#[derive(Debug)]
pub enum Effect {
    /// Report an error or a warning.
    Report(Report),
    /// Queue a message to the server.
    Notify(WsClientNotify),
    /// End the connection to the server, for the given reason.
    QuitWs(Result<(), WsClientError>),
    /// Cancel the firmware update that is scheduled.
    OtaCancel,
    /// Have the firmware updater do something.
    OtaSignal(OtaEvent),
    /// Have the network controller do something.
    WifiSignal(WifiNetEvent),
    /// Write the persistent settings to flash.
    StorePersistSettings,
    /// Write the device info to flash.
    StoreDeviceInfo,
    /// Stop what the status LED is showing.
    CancelStatusAnimation,
    /// Show something on the status LED.
    StartStatusAnimation(LedStatusAnimationEvent),
    /// Stop what the pixels are showing.
    CancelPixelsAnimation,
    /// Show something on the pixels.
    StartPixelsAnimation(LedPixelsAnimationEvent),
    /// Bring the colors of the pixels to the LEDs.
    UpdateLeds,
    /// Render without waiting for the next frame.
    RenderNow,
}

/// Things to do, in the order in which they were asked for.
#[derive(Debug)]
pub struct Effects {
    pub list: Vec<Effect>,
}

impl View for Effects {
    type V = Seq<Effect>;

    open spec fn view(&self) -> Seq<Effect> {
        self.list@
    }
}

impl Effects {
    pub fn new() -> (fx: Self)
        ensures
            fx@ == Seq::<Effect>::empty(),
    {
        Effects { list: Vec::new() }
    }

    pub fn push(&mut self, effect: Effect)
        ensures
            final(self)@ == old(self)@.push(effect),
    {
        self.list.push(effect);
    }
}

} // verus!
