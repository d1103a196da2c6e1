//! The state of the device.

use vstd::prelude::*;

use crate::store::app_settings::persist::PersistSettings;
use crate::store::app_settings::session::SessionSettings;
use crate::store::transit_data::TransitDataStore;
use crate::util::RGB8;

verus! {

/// All that the device remembers.
#[derive(Debug)]
pub struct Device {
    pub persist: PersistSettings,
    pub session: SessionSettings,
    pub transit: Option<TransitDataStore>,
    /// Colors of the status LED and, behind it, of the pixels.
    pub leds: Vec<RGB8>,
}

} // verus!
