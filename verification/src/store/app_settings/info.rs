//! What the device tells of itself in flash.

use vstd::prelude::*;

use crate::config::Config;
use crate::effects::{Effect, Effects};
use crate::store::app_settings::session::SessionSettings;

verus! {

/// What marks device info in flash.
pub const DEVICE_INFO_MAGIC: u32 = 0xEDA1BEE;

/// Size in bytes of the device info in flash.
pub const DEVICE_INFO_SIZE: usize = 64;

/// The device info.
#[derive(Debug)]
pub struct DeviceInfo {
    pub magic: u32,
    pub product_id: String,
    pub firmware: FirmwareInfo,
}

/// The firmware of a device.
#[derive(Debug, Copy, Clone, PartialEq, Eq, Structural)]
pub struct FirmwareInfo {
    pub version_major: u32,
    pub version_minor: u32,
    pub version_patch: u32,
    pub is_beta: bool,
    pub is_factory: bool,
    pub is_rolled_back: bool,
}

/// Has the device info written to flash.
pub fn store(fx: &mut Effects)
    ensures
        final(fx)@ == old(fx)@.push(Effect::StoreDeviceInfo),
{
    fx.push(Effect::StoreDeviceInfo);
}

/// The firmware of a device.
pub open spec fn firmware_info(config: Config, session: SessionSettings) -> FirmwareInfo {
    FirmwareInfo {
        version_major: config.fw_version.major,
        version_minor: config.fw_version.minor,
        version_patch: config.fw_version.patch,
        is_beta: config.fw_version.beta,
        is_factory: session.is_factory_firmware,
        is_rolled_back: session.is_rolled_back_firmware,
    }
}

/// The device info that is written to flash.
pub fn device_info(config: &Config, session: &SessionSettings) -> (info: DeviceInfo)
    ensures
        info.magic == DEVICE_INFO_MAGIC,
        info.product_id@ == config.product.ident(),
        info.product_id@.len() <= 16,
        info.firmware == firmware_info(*config, *session),
{
    proof {
        reveal_strlit("virt-1-1");
        reveal_strlit("bln1-2512-1");
        reveal_strlit("bln2-2512-1");
    }
    DeviceInfo {
        magic: DEVICE_INFO_MAGIC,
        product_id: config.product.as_str().to_owned(),
        firmware: FirmwareInfo {
            version_major: config.fw_version.major,
            version_minor: config.fw_version.minor,
            version_patch: config.fw_version.patch,
            is_beta: config.fw_version.beta,
            is_factory: session.is_factory_firmware,
            is_rolled_back: session.is_rolled_back_firmware,
        },
    }
}

/// What is told of the firmware is the version that runs, and how it came to run.
pub proof fn lemma_firmware_info(config: Config, session: SessionSettings)
    ensures
        ({
            let info = firmware_info(config, session);
            &&& info.version_major == config.fw_version.major
            &&& info.version_minor == config.fw_version.minor
            &&& info.version_patch == config.fw_version.patch
            &&& info.is_beta == config.fw_version.beta
            &&& info.is_factory == session.is_factory_firmware
            &&& info.is_rolled_back == session.is_rolled_back_firmware
        }),
{
}

} // verus!
