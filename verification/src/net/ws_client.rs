//! The connection to the server.

use vstd::prelude::*;

use crate::config::{Config, ProductConfig};
use crate::device::Device;
use crate::display::leds;
use crate::display::leds::{LedPixels, LedStatus};
use crate::display::renderer::RendererState;
use crate::effects::{Effect, Effects};
use crate::net::wifi_net;
use crate::proto;
use crate::proto::{
    ClientMessage, DeviceCommand, DeviceConfig, DeviceErrors, DeviceInfo, DeviceStatus,
    DeviceTelemetry, DeviceUpdate, Echo, Payload, ServerInfo, TransitData,
};
use crate::store::app_settings::persist;
use crate::store::app_settings::persist::PersistSettings;
use crate::store::app_settings::session::SessionSettings;
use crate::store::ota;
use crate::store::ota::OtaEvent;
use crate::store::transit_data;
use crate::store::transit_data::TransitDataStats;
use crate::time;
use crate::trace::{ErrorLog, Report};
use crate::ui;

verus! {

/// What is to be sent to the server.
#[derive(Debug)]
pub enum WsClientNotify {
    Status,
    Config,
    Telemetry,
    Errors,
    Echo(Echo),
    Info,
    Pong,
}

/// Why the connection to the server ends.
#[derive(Debug, Copy, Clone, PartialEq, Eq, Structural)]
pub enum WsClientError {
    /// The name of the server cannot be resolved.
    DnsError,
    HttpError,
    /// The server does not speak the protocol, or `invalid` if a frame made no sense.
    WsError { invalid: bool },
    Timeout,
    DataError,
    AuthFailed,
    RestartProvisioning,
    FactoryReset,
    SessionError,
    Reboot,
    Reconnect,
}

/// Ends the connection to the server.
pub fn quit(result: Result<(), WsClientError>, fx: &mut Effects)
    ensures
        final(fx)@ == old(fx)@.push(Effect::QuitWs(result)),
{
    fx.push(Effect::QuitWs(result));
}

pub fn send_status(fx: &mut Effects)
    ensures
        final(fx)@ == old(fx)@.push(Effect::Notify(WsClientNotify::Status)),
{
    fx.push(Effect::Notify(WsClientNotify::Status));
}

pub fn send_config(fx: &mut Effects)
    ensures
        final(fx)@ == old(fx)@.push(Effect::Notify(WsClientNotify::Config)),
{
    fx.push(Effect::Notify(WsClientNotify::Config));
}

pub fn send_telemetry(fx: &mut Effects)
    ensures
        final(fx)@ == old(fx)@.push(Effect::Notify(WsClientNotify::Telemetry)),
{
    fx.push(Effect::Notify(WsClientNotify::Telemetry));
}

pub fn send_errors(fx: &mut Effects)
    ensures
        final(fx)@ == old(fx)@.push(Effect::Notify(WsClientNotify::Errors)),
{
    fx.push(Effect::Notify(WsClientNotify::Errors));
}

pub fn send_echo(echo: Echo, fx: &mut Effects)
    ensures
        final(fx)@ == old(fx)@.push(Effect::Notify(WsClientNotify::Echo(echo))),
{
    fx.push(Effect::Notify(WsClientNotify::Echo(echo)));
}

pub fn send_info(fx: &mut Effects)
    ensures
        final(fx)@ == old(fx)@.push(Effect::Notify(WsClientNotify::Info)),
{
    fx.push(Effect::Notify(WsClientNotify::Info));
}

pub fn send_pong(fx: &mut Effects)
    ensures
        final(fx)@ == old(fx)@.push(Effect::Notify(WsClientNotify::Pong)),
{
    fx.push(Effect::Notify(WsClientNotify::Pong));
}

// ---------------------------------------------------------------------------------------------
// Messages from the server
// ---------------------------------------------------------------------------------------------

/// How long after it is offered an update starts by itself.
pub const AUTO_UPDATE_DELAY_SECS: u64 = 300;

/// Whether only the session differs.
pub open spec fn only_session(before: Device, after: Device) -> bool {
    after.persist == before.persist && after.transit == before.transit && after.leds == before.leds
}

/// What the time from the server does.
pub open spec fn server_info_handled(
    info: ServerInfo,
    before: Device,
    after: Device,
    fx: Seq<Effect>,
    uptime_secs: u32,
) -> bool {
    &&& only_session(before, after)
    &&& after.session == time::synced(before.session, info, uptime_secs)
    &&& fx == seq![Effect::Notify(WsClientNotify::Info)] + leds::session_status_effects(
        after.session,
        after.persist,
    )
}

fn on_server_info(device: &mut Device, info: &ServerInfo, uptime_secs: u32, fx: &mut Effects)
    ensures
        fx_added(old(fx)@, final(fx)@),
        server_info_handled(
            *info,
            *old(device),
            *final(device),
            fx_new(old(fx)@, final(fx)@),
            uptime_secs,
        ),
{
    time::sync(&mut device.session, info, uptime_secs);
    send_info(fx);
    leds::set_status_led_from_session(&device.session, &device.persist, fx);
    assert(fx@ =~= old(fx)@ + (seq![Effect::Notify(WsClientNotify::Info)]
        + leds::session_status_effects(device.session, device.persist)));
    proof {
        lemma_added(
            old(fx)@,
            seq![Effect::Notify(WsClientNotify::Info)] + leds::session_status_effects(
                device.session,
                device.persist,
            ),
        );
    }
}

/// Whether effects were added.
pub open spec fn fx_added(before: Seq<Effect>, after: Seq<Effect>) -> bool {
    after.len() >= before.len() && after.take(before.len() as int) == before
}

/// The effects that were added.
pub open spec fn fx_new(before: Seq<Effect>, after: Seq<Effect>) -> Seq<Effect> {
    after.skip(before.len() as int)
}

/// What was appended was added.
pub proof fn lemma_added(before: Seq<Effect>, new: Seq<Effect>)
    ensures
        fx_added(before, before + new),
        fx_new(before, before + new) == new,
{
    assert((before + new).take(before.len() as int) =~= before);
    assert((before + new).skip(before.len() as int) =~= new);
}

/// What the status from the server does: it turns the light on or off, against the timer.
pub open spec fn status_handled(
    on: bool,
    before: Device,
    after: Device,
    fx: Seq<Effect>,
) -> bool {
    let changed = before.session.light_on != on || before.session.light_on_override != Some(on);
    &&& only_session(before, after)
    &&& after.session == (SessionSettings {
        light_on: on,
        light_on_override: Some(on),
        ..before.session
    })
    &&& fx == (if changed {
        seq![Effect::Notify(WsClientNotify::Telemetry)]
    } else {
        Seq::empty()
    }) + leds::session_status_effects(after.session, after.persist)
}

fn on_status(device: &mut Device, on: bool, fx: &mut Effects)
    ensures
        fx_added(old(fx)@, final(fx)@),
        status_handled(on, *old(device), *final(device), fx_new(old(fx)@, final(fx)@)),
{
    let same_override = match device.session.light_on_override {
        Some(o) => o == on,
        None => false,
    };
    let changed = device.session.light_on != on || !same_override;
    device.session.light_on = on;
    device.session.light_on_override = Some(on);
    if changed {
        send_telemetry(fx);
    }
    leds::set_status_led_from_session(&device.session, &device.persist, fx);
    proof {
        let new = (if changed {
            seq![Effect::Notify(WsClientNotify::Telemetry)]
        } else {
            Seq::empty()
        }) + leds::session_status_effects(device.session, device.persist);
        assert(fx@ =~= old(fx)@ + new);
        lemma_added(old(fx)@, new);
    }
}

/// What a configuration from the server does: it takes the place of the one that there was. With
/// automatic updates disabled, the update that is scheduled is canceled.
pub open spec fn config_handled(
    config: DeviceConfig,
    before: Device,
    after: Device,
    fx: Seq<Effect>,
    now_instant_ms: u32,
) -> bool {
    let cancels = !config.auto_firmware_update_enabled
        && before.session.auto_update_scheduled_unix_timestamp is Some;
    let changed = !before.persist.config.same(config);
    &&& after.persist == (PersistSettings { config, ..before.persist })
    &&& after.session == before.session
    &&& after.leds == before.leds
    &&& after.transit == (if changed {
        ui::transit_outdated(before.transit, now_instant_ms)
    } else {
        before.transit
    })
    &&& fx == (if cancels {
        seq![Effect::OtaCancel]
    } else {
        Seq::empty()
    }) + (if changed {
        seq![Effect::StorePersistSettings, Effect::RenderNow]
    } else {
        Seq::empty()
    })
}

fn on_config(device: &mut Device, config: DeviceConfig, now_instant_ms: u32, fx: &mut Effects)
    ensures
        fx_added(old(fx)@, final(fx)@),
        config_handled(
            config,
            *old(device),
            *final(device),
            fx_new(old(fx)@, final(fx)@),
            now_instant_ms,
        ),
{
    let cancels = !config.auto_firmware_update_enabled
        && device.session.auto_update_scheduled_unix_timestamp.is_some();
    if cancels {
        ota::cancel(fx);
    }
    let changed = !device.persist.config.is_same(&config);
    device.persist.config = config;
    if persist::note_update(changed, fx) {
        transit_data::on_config_updated(&mut device.transit, now_instant_ms, fx);
    }
    proof {
        let new = (if cancels {
            seq![Effect::OtaCancel]
        } else {
            Seq::empty()
        }) + (if changed {
            seq![Effect::StorePersistSettings, Effect::RenderNow]
        } else {
            Seq::empty()
        });
        assert(fx@ =~= old(fx)@ + new);
        lemma_added(old(fx)@, new);
    }
}

/// What a command that resets the configuration does: the lines of the transit data get
/// configurations anew.
pub open spec fn defaults_handled(
    before: Device,
    after: Device,
    fx: Seq<Effect>,
    product: ProductConfig,
) -> bool {
    let lines = match before.transit {
        Some(s) => s.data.lines@,
        None => Seq::empty(),
    };
    let update = transit_data::after_lines(Seq::empty(), lines, lines.len());
    exists|fresh: DeviceConfig|
        {
            &&& #[trigger] persist::is_default_config(fresh, product)
            &&& after.persist.config.without_lines(fresh)
            &&& after.persist.config.line_configs@ == update.configs
            &&& after.persist.without_config(before.persist)
            &&& after.session == (SessionSettings {
                light_on: true,
                light_on_override: None,
                ..before.session
            })
            &&& after.transit == before.transit
            &&& after.leds == before.leds
            &&& fx == persist::stored_if(
                Seq::empty(),
                !before.persist.config.same(fresh),
            ) + transit_data::line_effects(update) + seq![
                Effect::Notify(WsClientNotify::Config),
                Effect::Notify(WsClientNotify::Status),
            ]
        }
}

fn reset_config_defaults(device: &mut Device, product: &ProductConfig, fx: &mut Effects)
    ensures
        fx_added(old(fx)@, final(fx)@),
        defaults_handled(*old(device), *final(device), fx_new(old(fx)@, final(fx)@), *product),
{
    let fresh = persist::persist_settings_default(product).config;
    let ghost fresh_config = fresh;
    let changed = !device.persist.config.is_same(&fresh);
    device.persist.config = fresh;
    let _ = persist::note_update(changed, fx);
    device.session.light_on = true;
    device.session.light_on_override = None;
    let ghost stored = fx@;
    transit_data::update_line_configs(&device.transit, &mut device.persist, fx);
    send_config(fx);
    send_status(fx);
    proof {
        let lines = match old(device).transit {
            Some(s) => s.data.lines@,
            None => Seq::empty(),
        };
        let update = transit_data::after_lines(Seq::empty(), lines, lines.len());
        assert(fresh_config.line_configs@ =~= Seq::empty());
        assert(device.persist.config.line_configs@ =~= update.configs);
        assert(persist::is_default_config(fresh_config, *product));
        if old(device).transit is None {
            assert(transit_data::line_effects(update) =~= Seq::empty());
        }
        let new = persist::stored_if(Seq::empty(), changed) + transit_data::line_effects(update)
            + seq![
            Effect::Notify(WsClientNotify::Config),
            Effect::Notify(WsClientNotify::Status),
        ];
        assert(fx@ =~= old(fx)@ + new);
        lemma_added(old(fx)@, new);
    }
}

/// What a command from the server does.
pub open spec fn command_handled(
    command: DeviceCommand,
    before: Device,
    after: Device,
    fx: Seq<Effect>,
    product: ProductConfig,
) -> bool {
    match command {
        DeviceCommand::Reboot => {
            &&& after.transit is None
            &&& after.leds@ == leds::darkened(before.leds@)
            &&& after.persist == before.persist
            &&& after.session == before.session
            &&& fx == leds::pixels_effects(LedPixels::Off).push(
                Effect::QuitWs(Err(WsClientError::Reboot)),
            )
        },
        DeviceCommand::Identify => {
            &&& after.persist == before.persist
            &&& after.session == before.session
            &&& after.transit == before.transit
            &&& after.leds@ == before.leds@
            &&& fx == leds::pixels_effects(LedPixels::Identify)
        },
        DeviceCommand::FactoryReset => {
            &&& persist::is_default(after.persist, product)
            &&& after.session == before.session
            &&& after.transit == before.transit
            &&& after.leds == before.leds
            &&& fx == persist::stored_if(Seq::empty(), !before.persist.same(after.persist)) + seq![
                Effect::Notify(WsClientNotify::Config),
                Effect::QuitWs(Err(WsClientError::FactoryReset)),
            ]
        },
        DeviceCommand::Reprovision => {
            &&& after == before
            &&& fx == seq![Effect::QuitWs(Err(WsClientError::RestartProvisioning))]
        },
        DeviceCommand::ResetConfigDefaults => defaults_handled(before, after, fx, product),
        DeviceCommand::StartFirmwareUpdate => {
            &&& after == before
            &&& match before.session.firmware_update_available {
                None => fx == seq![Effect::Report(Report::UpdateCommandWithoutUpdate)],
                Some(update) => if before.session.updating_firmware {
                    fx == Seq::<Effect>::empty()
                } else {
                    ota::update_asked(Seq::empty(), fx, update)
                },
            }
        },
        DeviceCommand::TestLeds => {
            &&& after.session == (SessionSettings { test_mode_active: true, ..before.session })
            &&& after.persist == before.persist
            &&& after.transit == before.transit
            &&& after.leds@ == before.leds@
            &&& fx == leds::pixels_effects(LedPixels::TestMode)
        },
        DeviceCommand::Reconnect => {
            &&& after == before
            &&& fx == seq![Effect::QuitWs(Err(WsClientError::Reconnect))]
        },
        DeviceCommand::Unknown(_) => after == before && fx == Seq::<Effect>::empty(),
    }
}

fn on_command(
    device: &mut Device,
    command: DeviceCommand,
    product: &ProductConfig,
    fx: &mut Effects,
)
    ensures
        fx_added(old(fx)@, final(fx)@),
        command_handled(
            command,
            *old(device),
            *final(device),
            fx_new(old(fx)@, final(fx)@),
            *product,
        ),
{
    let ghost start = fx@;
    match command {
        DeviceCommand::Reboot => {
            transit_data::reset(&mut device.transit);
            leds::set_pixels(LedPixels::Off, &mut device.leds, fx);
            quit(Err(WsClientError::Reboot), fx);
            proof {
                let new = leds::pixels_effects(LedPixels::Off).push(
                    Effect::QuitWs(Err(WsClientError::Reboot)),
                );
                assert(fx@ =~= start + new);
                lemma_added(start, new);
            }
        },
        DeviceCommand::Identify => {
            leds::set_pixels(LedPixels::Identify, &mut device.leds, fx);
            proof {
                lemma_added(start, leds::pixels_effects(LedPixels::Identify));
            }
        },
        DeviceCommand::FactoryReset => {
            let fresh = persist::persist_settings_default(product);
            let changed = !device.persist.is_same(&fresh);
            device.persist = fresh;
            let _ = persist::note_update(changed, fx);
            send_config(fx);
            quit(Err(WsClientError::FactoryReset), fx);
            proof {
                let new = persist::stored_if(Seq::empty(), changed) + seq![
                    Effect::Notify(WsClientNotify::Config),
                    Effect::QuitWs(Err(WsClientError::FactoryReset)),
                ];
                assert(fx@ =~= start + new);
                lemma_added(start, new);
            }
        },
        DeviceCommand::Reprovision => {
            quit(Err(WsClientError::RestartProvisioning), fx);
            proof {
                let new = seq![Effect::QuitWs(Err(WsClientError::RestartProvisioning))];
                assert(fx@ =~= start + new);
                lemma_added(start, new);
            }
        },
        DeviceCommand::ResetConfigDefaults => reset_config_defaults(device, product, fx),
        DeviceCommand::StartFirmwareUpdate => {
            match &device.session.firmware_update_available {
                Some(update) => {
                    ota::start_firmware_update(update, &device.session, fx);
                    proof {
                        if device.session.updating_firmware {
                            assert(fx@ =~= start + Seq::<Effect>::empty());
                            lemma_added(start, Seq::empty());
                        } else {
                            ui::lemma_update_asked_skip(start, fx@, *update);
                        }
                    }
                },
                None => {
                    fx.push(Effect::Report(Report::UpdateCommandWithoutUpdate));
                    proof {
                        let new = seq![Effect::Report(Report::UpdateCommandWithoutUpdate)];
                        assert(fx@ =~= start + new);
                        lemma_added(start, new);
                    }
                },
            }
        },
        DeviceCommand::TestLeds => {
            device.session.test_mode_active = true;
            leds::set_pixels(LedPixels::TestMode, &mut device.leds, fx);
            proof {
                lemma_added(start, leds::pixels_effects(LedPixels::TestMode));
            }
        },
        DeviceCommand::Reconnect => {
            quit(Err(WsClientError::Reconnect), fx);
            proof {
                let new = seq![Effect::QuitWs(Err(WsClientError::Reconnect))];
                assert(fx@ =~= start + new);
                lemma_added(start, new);
            }
        },
        DeviceCommand::Unknown(_) => {
            proof {
                assert(fx@ =~= start + Seq::<Effect>::empty());
                lemma_added(start, Seq::empty());
            }
        },
    }
}

/// What new transit data does.
pub open spec fn transit_data_handled(
    data: TransitData,
    size_bytes: usize,
    before: Device,
    after: Device,
    fx: Seq<Effect>,
    uptime_secs: u32,
    product: ProductConfig,
) -> bool {
    let now = time::wrapped_sum(before.session.unix_epoch_offset_secs, uptime_secs) as u32;
    let update = transit_data::after_lines(
        before.persist.config.line_configs@,
        data.lines@,
        data.lines@.len(),
    );
    &&& after.transit matches Some(s) && transit_data::stored_on_data(
        s,
        before.transit,
        data,
        size_bytes,
        now,
        product,
    )
    &&& after.persist.config.line_configs@ == update.configs
    &&& after.persist.config.without_lines(before.persist.config)
    &&& after.persist.without_config(before.persist)
    &&& after.session == before.session
    &&& after.leds == before.leds
    &&& fx == transit_data::stop_reports(
        product.loc_geo_kd_tree@,
        product.loc_pix_nodes@,
        data.stops@,
        data.stops@.len(),
    ) + transit_data::line_effects(update)
}

/// What the offer of an update does: the device remembers it, and schedules it if it is to update
/// by itself.
pub open spec fn update_handled(
    update: DeviceUpdate,
    before: Device,
    after: Device,
    fx: Seq<Effect>,
) -> bool {
    &&& only_session(before, after)
    &&& after.session == (SessionSettings {
        firmware_update_available: Some(update),
        ..before.session
    })
    &&& exists|asked: Seq<Effect>| #[trigger]
        scheduled_if(before, asked, update) && fx == asked + leds::session_status_effects(
            after.session,
            after.persist,
        )
}

/// Whether the effects schedule an update, or are none if it is not to be scheduled.
pub open spec fn scheduled_if(before: Device, fx: Seq<Effect>, update: DeviceUpdate) -> bool {
    if before.persist.config.auto_firmware_update_enabled && !before.session.updating_firmware
        && before.session.auto_update_scheduled_unix_timestamp is None {
        ota::update_scheduled(Seq::empty(), fx, update, AUTO_UPDATE_DELAY_SECS)
    } else {
        fx == Seq::<Effect>::empty()
    }
}

fn on_device_update(device: &mut Device, update: DeviceUpdate, fx: &mut Effects)
    ensures
        fx_added(old(fx)@, final(fx)@),
        update_handled(update, *old(device), *final(device), fx_new(old(fx)@, final(fx)@)),
{
    let ghost start = fx@;
    let ghost schedules = device.persist.config.auto_firmware_update_enabled
        && !device.session.updating_firmware
        && device.session.auto_update_scheduled_unix_timestamp is None;
    let ghost mut asked = Seq::<Effect>::empty();
    if device.persist.config.auto_firmware_update_enabled {
        ota::schedule_firmware_update(&update, AUTO_UPDATE_DELAY_SECS, &device.session, fx);
        proof {
            if schedules {
                let u = choose|u: DeviceUpdate| #[trigger]
                    u.same(update) && fx@ == start.push(Effect::OtaCancel).push(
                        Effect::OtaSignal(OtaEvent::ScheduleUpdate(u, AUTO_UPDATE_DELAY_SECS)),
                    );
                asked = Seq::<Effect>::empty().push(Effect::OtaCancel).push(
                    Effect::OtaSignal(OtaEvent::ScheduleUpdate(u, AUTO_UPDATE_DELAY_SECS)),
                );
                assert(fx@ =~= start + asked);
            }
        }
    }
    assert(fx@ =~= start + asked);
    device.session.firmware_update_available = Some(update);
    leds::set_status_led_from_session(&device.session, &device.persist, fx);
    proof {
        let new = asked + leds::session_status_effects(device.session, device.persist);
        assert(fx@ =~= start + new);
        lemma_added(start, new);
        assert(scheduled_if(*old(device), asked, update));
    }
}

/// What a message from the server does.
pub open spec fn handled(
    payload: Payload,
    payload_len: usize,
    before: Device,
    after: Device,
    fx: Seq<Effect>,
    uptime_secs: u32,
    now_instant_ms: u32,
    product: ProductConfig,
) -> bool {
    match payload {
        Payload::ServerInfo(info) => server_info_handled(info, before, after, fx, uptime_secs),
        Payload::Status(status) => status_handled(status.is_light_on, before, after, fx),
        Payload::Config(config) => config_handled(config, before, after, fx, now_instant_ms),
        Payload::Command(command) => command_handled(command, before, after, fx, product),
        Payload::Echo(echo) => {
            &&& after == before
            &&& fx == seq![
                Effect::Notify(WsClientNotify::Echo(echo)),
                Effect::Notify(WsClientNotify::Telemetry),
            ]
        },
        Payload::TransitData(data) => transit_data_handled(
            data,
            payload_len,
            before,
            after,
            fx,
            uptime_secs,
            product,
        ),
        Payload::DeviceUpdate(update) => update_handled(update, before, after, fx),
        _ => after == before && fx == seq![Effect::Report(Report::WsPayloadUnhandled)],
    }
}

/// Handles a message from the server.
pub fn handle_proto_message(
    device: &mut Device,
    payload: Payload,
    payload_len: usize,
    uptime_secs: u32,
    now_instant_ms: u32,
    product: &ProductConfig,
    fx: &mut Effects,
)
    requires
        payload is TransitData ==> transit_data::valid_kd(
            product.loc_geo_kd_tree@,
            product.loc_pix_nodes@.len(),
            0,
            transit_data::KD_MAX_LEVELS as nat,
        ),
    ensures
        fx_added(old(fx)@, final(fx)@),
        handled(
            payload,
            payload_len,
            *old(device),
            *final(device),
            fx_new(old(fx)@, final(fx)@),
            uptime_secs,
            now_instant_ms,
            *product,
        ),
{
    let ghost start = fx@;
    match payload {
        Payload::ServerInfo(info) => on_server_info(device, &info, uptime_secs, fx),
        Payload::Status(status) => on_status(device, status.is_light_on, fx),
        Payload::Config(config) => on_config(device, config, now_instant_ms, fx),
        Payload::Command(command) => on_command(device, command, product, fx),
        Payload::Echo(echo) => {
            let ghost sent = echo;
            send_echo(echo, fx);
            send_telemetry(fx);
            proof {
                let new = seq![
                    Effect::Notify(WsClientNotify::Echo(sent)),
                    Effect::Notify(WsClientNotify::Telemetry),
                ];
                assert(fx@ =~= start + new);
                lemma_added(start, new);
            }
        },
        Payload::TransitData(data) => {
            let ghost update = transit_data::after_lines(
                device.persist.config.line_configs@,
                data.lines@,
                data.lines@.len(),
            );
            let ghost reports = transit_data::stop_reports(
                product.loc_geo_kd_tree@,
                product.loc_pix_nodes@,
                data.stops@,
                data.stops@.len(),
            );
            let now: u32 = time::get_unix_timestamp_seconds(&device.session, uptime_secs);
            transit_data::on_data(
                data,
                payload_len,
                now,
                product,
                &mut device.transit,
                &mut device.persist,
                fx,
            );
            proof {
                let new = reports + transit_data::line_effects(update);
                assert(fx@ =~= start + new);
                lemma_added(start, new);
            }
        },
        Payload::DeviceUpdate(update) => on_device_update(device, update, fx),
        _ => {
            fx.push(Effect::Report(Report::WsPayloadUnhandled));
            proof {
                let new = seq![Effect::Report(Report::WsPayloadUnhandled)];
                assert(fx@ =~= start + new);
                lemma_added(start, new);
            }
        },
    }
}

// ---------------------------------------------------------------------------------------------
// Frames from the server
// ---------------------------------------------------------------------------------------------

/// A frame.
#[derive(Debug, Copy, Clone, PartialEq, Eq, Structural)]
pub enum FrameKind {
    Binary { fragmented: bool },
    Ping,
    Close,
    /// Any other.
    Other,
}

/// The first bytes of a message with transit data.
pub open spec fn has_transit_data(payload: Seq<u8>) -> bool {
    payload.len() >= 3 && payload[0] == 0x08 && payload[1] == 0x01 && payload[2] == 0x52
}

/// What comes of a frame.
#[derive(Debug, Copy, Clone, PartialEq, Eq)]
pub enum FrameStep {
    /// The frame is to be decoded, and the message in it handled.
    Decode,
    /// The frame is done. The next one is to be received.
    Next,
    /// The connection ends.
    End(Result<(), WsClientError>),
}

/// What comes of a frame. New transit data is left out while the firmware is updated, to save
/// memory, and while the LEDs are tested.
pub open spec fn frame_step(kind: FrameKind, payload: Seq<u8>, session: SessionSettings) -> FrameStep {
    match kind {
        FrameKind::Binary { .. } => if has_transit_data(payload) && (session.updating_firmware
            || session.test_mode_active) {
            FrameStep::Next
        } else {
            FrameStep::Decode
        },
        FrameKind::Ping => FrameStep::Next,
        FrameKind::Close => FrameStep::End(Ok(())),
        FrameKind::Other => FrameStep::End(Err(WsClientError::DataError)),
    }
}

/// Decides what to do with a frame. Before new transit data is decoded, the old data is dropped,
/// so that both are never in memory.
pub fn on_frame(device: &mut Device, kind: FrameKind, payload: &[u8], fx: &mut Effects) -> (r:
    FrameStep)
    ensures
        r == frame_step(kind, payload@, old(device).session),
        final(device).persist == old(device).persist,
        final(device).session == old(device).session,
        final(device).leds == old(device).leds,
        kind is Binary && has_transit_data(payload@) && !old(device).session.updating_firmware ==> (
        match old(device).transit {
            None => final(device).transit is None,
            Some(o) => final(device).transit matches Some(s) && {
                &&& s.data.is_empty()
                &&& s.state.stop_id_to_loc_id_map@.len() == 0
                &&& s.state.renderer_out == o.state.renderer_out
                &&& s.state.rendered_state == (RendererState {
                    rendered_data_first_at_instant_ms: None,
                    ..o.state.rendered_state
                })
                &&& s.stats == o.stats
            },
        }),
        !(kind is Binary && has_transit_data(payload@) && !old(device).session.updating_firmware)
            ==> final(device).transit == old(device).transit,
        final(fx)@ == (match kind {
            FrameKind::Ping => old(fx)@.push(Effect::Notify(WsClientNotify::Pong)).push(
                Effect::Notify(WsClientNotify::Telemetry),
            ),
            FrameKind::Other => old(fx)@.push(Effect::Report(Report::WsFrameUnsupported)),
            _ => old(fx)@,
        }),
{
    match kind {
        FrameKind::Binary { .. } => {
            let transit = payload.len() >= 3 && payload[0] == 0x08 && payload[1] == 0x01
                && payload[2] == 0x52;
            if transit {
                if device.session.updating_firmware {
                    return FrameStep::Next;
                }
                transit_data::clear(&mut device.transit);
                if device.session.test_mode_active {
                    return FrameStep::Next;
                }
            }
            FrameStep::Decode
        },
        FrameKind::Ping => {
            send_pong(fx);
            send_telemetry(fx);
            FrameStep::Next
        },
        FrameKind::Close => FrameStep::End(Ok(())),
        FrameKind::Other => {
            fx.push(Effect::Report(Report::WsFrameUnsupported));
            FrameStep::End(Err(WsClientError::DataError))
        },
    }
}

/// Whether a message can be handled, and the error if it cannot: it makes no sense, it is of
/// another version, or there is nothing in it.
pub open spec fn message_error(message: Option<ClientMessage>) -> Option<WsClientError> {
    match message {
        Some(m) if m.version == proto::VERSION && m.payload is Some => None,
        _ => Some(WsClientError::DataError),
    }
}

/// What is reported of a message that cannot be handled.
pub open spec fn message_reports(message: Option<ClientMessage>) -> Seq<Effect> {
    match message {
        Some(m) if m.version != proto::VERSION => seq![
            Effect::Report(Report::WsVersionMismatch { version: m.version }),
        ],
        _ => Seq::empty(),
    }
}

/// Handles a frame after it was decoded, to `None` if it made no sense. A message in a part of a
/// frame is handled, but then the connection ends.
pub fn on_decoded_frame(
    device: &mut Device,
    message: Option<ClientMessage>,
    payload_len: usize,
    fragmented: bool,
    uptime_secs: u32,
    now_instant_ms: u32,
    product: &ProductConfig,
    fx: &mut Effects,
) -> (r: Result<(), WsClientError>)
    requires
        message_error(message) is None && message->0.payload->0 is TransitData ==> transit_data::valid_kd(
            product.loc_geo_kd_tree@,
            product.loc_pix_nodes@.len(),
            0,
            transit_data::KD_MAX_LEVELS as nat,
        ),
    ensures
        fx_added(old(fx)@, final(fx)@),
        match message_error(message) {
            Some(err) => {
                &&& r == Err::<(), _>(err)
                &&& *final(device) == *old(device)
                &&& fx_new(old(fx)@, final(fx)@) == message_reports(message)
            },
            None => {
                let new = fx_new(old(fx)@, final(fx)@);
                &&& r == (if fragmented {
                    Err::<(), _>(WsClientError::DataError)
                } else {
                    Ok(())
                })
                &&& fragmented ==> new.len() > 0 && new.last() == Effect::Report(
                    Report::WsFrameNotFinal,
                )
                &&& handled(
                    message->0.payload->0,
                    payload_len,
                    *old(device),
                    *final(device),
                    if fragmented {
                        new.drop_last()
                    } else {
                        new
                    },
                    uptime_secs,
                    now_instant_ms,
                    *product,
                )
            },
        },
{
    let ghost start = fx@;
    proof {
        assert(start =~= start + Seq::<Effect>::empty());
        lemma_added(start, Seq::empty());
    }
    let message = match message {
        Some(m) => m,
        None => {
            return Err(WsClientError::DataError);
        },
    };
    if message.version != proto::VERSION {
        let report = Report::WsVersionMismatch { version: message.version };
        fx.push(Effect::Report(report));
        proof {
            assert(fx@ =~= start + seq![Effect::Report(report)]);
            lemma_added(start, seq![Effect::Report(report)]);
        }
        return Err(WsClientError::DataError);
    }
    let payload = match message.payload {
        Some(p) => p,
        None => {
            return Err(WsClientError::DataError);
        },
    };
    handle_proto_message(
        device,
        payload,
        payload_len,
        uptime_secs,
        now_instant_ms,
        product,
        fx,
    );
    if fragmented {
        let ghost done = fx@;
        fx.push(Effect::Report(Report::WsFrameNotFinal));
        proof {
            assert(fx@.take(start.len() as int) =~= done.take(start.len() as int));
            assert(fx_new(start, fx@).drop_last() =~= fx_new(start, done));
        }
        return Err(WsClientError::DataError);
    }
    Ok(())
}

// ---------------------------------------------------------------------------------------------
// Messages to the server
// ---------------------------------------------------------------------------------------------

/// What is measured when telemetry is sent.
#[derive(Debug, Copy, Clone, PartialEq, Eq, Structural)]
pub struct Measurements {
    pub uptime_seconds: u32,
    /// Strength of the network signal, if it is known.
    pub wifi_rssi_dbm: Option<i32>,
    pub current_estimate_milliamps: u32,
    pub heap_size_bytes: u32,
    pub heap_max_used_bytes: u32,
    pub heap_current_used_bytes: u32,
}

/// What is sent.
#[derive(Debug)]
pub enum Outgoing {
    Message(ClientMessage),
    Pong,
}

/// Whether `t` is the telemetry of a device, given its statistics and what was measured.
pub open spec fn is_telemetry(
    t: DeviceTelemetry,
    device: Device,
    stats: TransitDataStats,
    m: Measurements,
) -> bool {
    &&& t.uptime_seconds == m.uptime_seconds
    &&& t.wifi_rssi_dbm == (match m.wifi_rssi_dbm {
        Some(rssi) => rssi,
        None => 0,
    })
    &&& t.current_estimate_milliamps == m.current_estimate_milliamps
    &&& t.update_progress_percent == device.session.update_progress_percent
    &&& t.update_speed_bytes_per_second == device.session.update_speed_bytes_per_sec
    &&& t.num_vehicles_available == stats.num_vehicles_available
    &&& t.num_vehicles_visible == stats.num_vehicles_visible
    &&& t.num_disruptions_available == stats.num_disruptions_available
    &&& t.num_disruptions_visible == stats.num_disruptions_visible
    &&& t.num_pixels_on == stats.num_pixels_on
    &&& t.last_transit_data_received_unix_timestamp == stats.received_at_timestamp
    &&& t.last_transit_data_sourced_unix_timestamp == stats.sourced_at_timestamp
    &&& t.last_transit_data_simulated_until_unix_timestamp == stats.simulated_until_timestamp
    &&& t.transit_data_downlink_bytes_per_second == stats.transit_data_downlink_bytes_per_second
    &&& t.available_vehicle_lines@ == stats.available_vehicle_lines@
    &&& t.heap_size_bytes == m.heap_size_bytes
    &&& t.heap_max_used_bytes == m.heap_max_used_bytes
    &&& t.heap_current_used_bytes == m.heap_current_used_bytes
    &&& t.feed_source@ == stats.feed_source@
    &&& t.num_vehicles_visible_real_time == stats.num_vehicles_visible_real_time
    &&& t.available_disrupted_lines@ == stats.available_disrupted_lines@
    &&& t.brightness_percent == leds::brightness_in_force(device.session, device.persist)
    &&& t.auto_update_scheduled_unix_timestamp
        == device.session.auto_update_scheduled_unix_timestamp
}

pub fn build_telemetry(device: &Device, m: Measurements) -> (r: DeviceTelemetry)
    ensures
        match device.transit {
            Some(s) => is_telemetry(r, *device, s.stats, m),
            None => exists|zero: TransitDataStats| #[trigger]
                zero.is_zero() && is_telemetry(r, *device, zero, m),
        },
{
    let stats = transit_data::get_stats(&device.transit);
    assert(device.transit is None ==> stats.is_zero());
    let ghost all = stats;
    let t = DeviceTelemetry {
        uptime_seconds: m.uptime_seconds,
        wifi_rssi_dbm: match m.wifi_rssi_dbm {
            Some(rssi) => rssi,
            None => 0,
        },
        current_estimate_milliamps: m.current_estimate_milliamps,
        update_progress_percent: device.session.update_progress_percent as u32,
        update_speed_bytes_per_second: device.session.update_speed_bytes_per_sec,
        num_vehicles_available: stats.num_vehicles_available,
        num_vehicles_visible: stats.num_vehicles_visible,
        num_disruptions_available: stats.num_disruptions_available,
        num_disruptions_visible: stats.num_disruptions_visible,
        num_pixels_on: stats.num_pixels_on,
        last_transit_data_received_unix_timestamp: stats.received_at_timestamp,
        last_transit_data_sourced_unix_timestamp: stats.sourced_at_timestamp,
        last_transit_data_simulated_until_unix_timestamp: stats.simulated_until_timestamp,
        transit_data_downlink_bytes_per_second: stats.transit_data_downlink_bytes_per_second,
        available_vehicle_lines: stats.available_vehicle_lines,
        heap_size_bytes: m.heap_size_bytes,
        heap_max_used_bytes: m.heap_max_used_bytes,
        heap_current_used_bytes: m.heap_current_used_bytes,
        feed_source: stats.feed_source,
        num_vehicles_visible_real_time: stats.num_vehicles_visible_real_time,
        available_disrupted_lines: stats.available_disrupted_lines,
        brightness_percent: leds::get_current_brightness_percent(
            &device.session,
            &device.persist,
        ) as u32,
        auto_update_scheduled_unix_timestamp: device.session.auto_update_scheduled_unix_timestamp,
    };
    assert(is_telemetry(t, *device, all, m));
    t
}

/// Errors at the time at which they are sent.
pub open spec fn stamped(errors: Seq<proto::DeviceError>, now: u32) -> Seq<proto::DeviceError> {
    errors.map_values(|e: proto::DeviceError| proto::DeviceError { unix_timestamp: now, ..e })
}

/// Takes the errors from the log.
pub fn build_errors(log: &mut ErrorLog, unix_timestamp: u32) -> (r: DeviceErrors)
    ensures
        r.errors@ == stamped(old(log)@, unix_timestamp),
        final(log)@ == Seq::<proto::DeviceError>::empty(),
{
    let logged = log.get_errors();
    let mut errors: Vec<proto::DeviceError> = Vec::new();
    let mut i: usize = 0;
    while i < logged.len()
        invariant
            i <= logged@.len(),
            logged@ == old(log)@,
            errors@ == stamped(logged@, unix_timestamp).take(i as int),
        decreases logged@.len() - i,
    {
        let e = &logged[i];
        let error = proto::DeviceError {
            error_type: e.error_type,
            instant_milliseconds: e.instant_milliseconds,
            message: e.message.clone(),
            file_name: e.file_name.clone(),
            line_number: e.line_number,
            column_number: e.column_number,
            unix_timestamp,
        };
        assert(error == stamped(logged@, unix_timestamp)[i as int]);
        errors.push(error);
        i = i + 1;
        assert(stamped(logged@, unix_timestamp).take(i as int) =~= stamped(
            logged@,
            unix_timestamp,
        ).take(i - 1).push(stamped(logged@, unix_timestamp)[i - 1]));
    }
    assert(stamped(logged@, unix_timestamp).take(i as int) =~= stamped(logged@, unix_timestamp));
    log.clear_errors();
    DeviceErrors { errors }
}

pub fn build_info(config: &Config, session: &SessionSettings) -> (r: DeviceInfo)
    ensures
        r == (DeviceInfo {
            firmware_version_major: config.fw_version.major,
            firmware_version_minor: config.fw_version.minor,
            firmware_version_patch: config.fw_version.patch,
            is_beta_firmware: config.fw_version.beta,
            is_rolled_back_firmware: session.is_rolled_back_firmware,
            is_factory_firmware: session.is_factory_firmware,
        }),
{
    DeviceInfo {
        firmware_version_major: config.fw_version.major,
        firmware_version_minor: config.fw_version.minor,
        firmware_version_patch: config.fw_version.patch,
        is_beta_firmware: config.fw_version.beta,
        is_rolled_back_firmware: session.is_rolled_back_firmware,
        is_factory_firmware: session.is_factory_firmware,
    }
}

pub fn build_status(device: &Device) -> (r: DeviceStatus)
    ensures
        r.is_light_on == device.session.light_on,
        r.is_updating_firmware == device.session.updating_firmware,
        r.has_update_failed == device.session.update_has_failed,
        r.wifi_ssid@ == (match device.persist.wifi_ssid {
            Some(ssid) => ssid@,
            None => Seq::<char>::empty(),
        }),
{
    let wifi_ssid = match &device.persist.wifi_ssid {
        Some(ssid) => ssid.clone(),
        None => String::new(),
    };
    DeviceStatus {
        is_light_on: device.session.light_on,
        is_updating_firmware: device.session.updating_firmware,
        has_update_failed: device.session.update_has_failed,
        wifi_ssid,
    }
}

/// Whether `payload` is what is asked for.
pub open spec fn answers(
    notify: WsClientNotify,
    payload: Payload,
    device: Device,
    config: Config,
    errors: Seq<proto::DeviceError>,
    unix_timestamp: u32,
    m: Measurements,
) -> bool {
    match notify {
        WsClientNotify::Status => payload matches Payload::Status(s) && s.is_light_on
            == device.session.light_on && s.is_updating_firmware == device.session.updating_firmware
            && s.has_update_failed == device.session.update_has_failed && s.wifi_ssid@ == (
        match device.persist.wifi_ssid {
            Some(ssid) => ssid@,
            None => Seq::<char>::empty(),
        }),
        WsClientNotify::Config => payload matches Payload::Config(c) && c.same(
            device.persist.config,
        ),
        WsClientNotify::Telemetry => payload matches Payload::Telemetry(t) && (
        match device.transit {
            Some(s) => is_telemetry(t, device, s.stats, m),
            None => exists|zero: TransitDataStats| #[trigger]
                zero.is_zero() && is_telemetry(t, device, zero, m),
        }),
        WsClientNotify::Errors => payload matches Payload::Errors(e) && e.errors@ == stamped(
            errors,
            unix_timestamp,
        ),
        WsClientNotify::Echo(echo) => payload == Payload::Echo(echo),
        WsClientNotify::Info => payload == Payload::DeviceInfo(
            DeviceInfo {
                firmware_version_major: config.fw_version.major,
                firmware_version_minor: config.fw_version.minor,
                firmware_version_patch: config.fw_version.patch,
                is_beta_firmware: config.fw_version.beta,
                is_rolled_back_firmware: device.session.is_rolled_back_firmware,
                is_factory_firmware: device.session.is_factory_firmware,
            },
        ),
        WsClientNotify::Pong => false,
    }
}

/// Builds what is to be sent. `None` if errors are to be sent and there are none.
pub fn build_outgoing(
    notify: WsClientNotify,
    device: &Device,
    config: &Config,
    log: &mut ErrorLog,
    unix_timestamp: u32,
    m: Measurements,
) -> (r: Option<Outgoing>)
    ensures
        match r {
            None => notify is Errors && old(log)@.len() == 0,
            Some(Outgoing::Pong) => notify is Pong,
            Some(Outgoing::Message(message)) => {
                &&& !(notify is Pong)
                &&& !(notify is Errors && old(log)@.len() == 0)
                &&& message.version == proto::VERSION
                &&& message.payload matches Some(p) && answers(
                    notify,
                    p,
                    *device,
                    *config,
                    old(log)@,
                    unix_timestamp,
                    m,
                )
            },
        },
        final(log)@ == (if notify is Errors {
            Seq::<proto::DeviceError>::empty()
        } else {
            old(log)@
        }),
{
    let payload = match notify {
        WsClientNotify::Status => Payload::Status(build_status(device)),
        WsClientNotify::Config => Payload::Config(device.persist.config.duplicate()),
        WsClientNotify::Telemetry => Payload::Telemetry(build_telemetry(device, m)),
        WsClientNotify::Errors => {
            let errors = build_errors(log, unix_timestamp);
            if errors.errors.len() == 0 {
                return None;
            }
            Payload::Errors(errors)
        },
        WsClientNotify::Echo(echo) => Payload::Echo(echo),
        WsClientNotify::Info => Payload::DeviceInfo(build_info(config, &device.session)),
        WsClientNotify::Pong => {
            return Some(Outgoing::Pong);
        },
    };
    Some(Outgoing::Message(ClientMessage { version: proto::VERSION, payload: Some(payload) }))
}

// ---------------------------------------------------------------------------------------------
// The connection
// ---------------------------------------------------------------------------------------------

/// Shows that the device connects to the server, or that it updates its firmware.
pub fn show_connecting(session: &SessionSettings, fx: &mut Effects)
    ensures
        final(fx)@ == old(fx)@ + leds::status_effects(
            if session.updating_firmware {
                LedStatus::UpdatingFirmware
            } else {
                LedStatus::ConnectingServer
            },
        ),
{
    leds::set_status(
        if session.updating_firmware {
            LedStatus::UpdatingFirmware
        } else {
            LedStatus::ConnectingServer
        },
        fx,
    );
}

/// Handles the outcome of an exchange of the provisioning token. A token that is refused is
/// forgotten.
pub fn on_provision_result(
    result: Result<(), WsClientError>,
    settings: &mut PersistSettings,
    fx: &mut Effects,
) -> (r: Result<(), WsClientError>)
    ensures
        r == (match result {
            Ok(()) => Ok::<(), WsClientError>(()),
            Err(WsClientError::AuthFailed) => Err(WsClientError::RestartProvisioning),
            Err(e) => Err(e),
        }),
        *final(settings) == (if result == Err::<(), _>(WsClientError::AuthFailed) {
            PersistSettings { prov_token: None, ..*old(settings) }
        } else {
            *old(settings)
        }),
        final(fx)@ == persist::stored_if(
            old(fx)@,
            result == Err::<(), _>(WsClientError::AuthFailed) && old(settings).prov_token is Some,
        ),
{
    match result {
        Ok(()) => Ok(()),
        Err(WsClientError::AuthFailed) => {
            let changed = settings.prov_token.is_some();
            settings.prov_token = None;
            let _ = persist::note_update(changed, fx);
            Err(WsClientError::RestartProvisioning)
        },
        Err(e) => Err(e),
    }
}

/// The access token to connect with, if there is one.
pub fn access_token(settings: &PersistSettings) -> (r: Result<String, WsClientError>)
    ensures
        match settings.access_token {
            Some(token) => r matches Ok(t) && t@ == token@,
            None => r == Err::<String, _>(WsClientError::AuthFailed),
        },
{
    match &settings.access_token {
        Some(token) => Ok(token.clone()),
        None => Err(WsClientError::AuthFailed),
    }
}

/// What to do after a connection ended.
#[derive(Debug, Copy, Clone, PartialEq, Eq, Structural)]
pub enum AfterRun {
    /// Connect again at once.
    Reconnect,
    /// Connect again after a while.
    Wait,
    /// Show the demo once the pixels have faded out and wait for the network to go down, then
    /// connect again after a while.
    WaitForProvisioning,
    /// Restart the device.
    Restart,
}

/// How long to wait before another connection.
pub const RECONNECT_DELAY_SECS: u64 = 3;

/// How long to wait before a restart.
pub const RESTART_DELAY_MS: u64 = 100;

/// What to do after a connection ended, by its outcome.
pub open spec fn after_run(result: Result<(), WsClientError>) -> AfterRun {
    match result {
        Err(WsClientError::RestartProvisioning) => AfterRun::WaitForProvisioning,
        Err(WsClientError::Reboot) => AfterRun::Restart,
        Err(WsClientError::Reconnect) => AfterRun::Reconnect,
        _ => AfterRun::Wait,
    }
}

/// What the end of a connection asks for.
pub open spec fn after_run_effects(
    result: Result<(), WsClientError>,
    settings: PersistSettings,
) -> Seq<Effect> {
    match result {
        Err(WsClientError::AuthFailed) => seq![Effect::Report(Report::WsAuthFailed)]
            + leds::status_effects(LedStatus::AuthError),
        Err(WsClientError::RestartProvisioning) => wifi_net::provisioning_effects(
            wifi_net::has_credential(settings),
        ),
        Err(WsClientError::FactoryReset) => seq![
            Effect::OtaCancel,
            Effect::OtaSignal(OtaEvent::BootFromFactory),
        ],
        Ok(()) => Seq::empty(),
        Err(WsClientError::Reboot) => Seq::empty(),
        Err(WsClientError::Reconnect) => Seq::empty(),
        Err(WsClientError::WsError { invalid: true }) => Seq::empty(),
        Err(WsClientError::Timeout) => Seq::empty(),
        Err(reason) => seq![Effect::Report(Report::WsConnectionFailed { reason })]
            + leds::status_effects(LedStatus::ServerError),
    }
}

/// Decides what to do after a connection ended.
pub fn on_run_ended(
    device: &mut Device,
    result: Result<(), WsClientError>,
    fx: &mut Effects,
) -> (r: AfterRun)
    ensures
        r == after_run(result),
        final(fx)@ == old(fx)@ + after_run_effects(result, old(device).persist),
        final(device).session == old(device).session,
        final(device).leds@ == old(device).leds@,
        r == AfterRun::WaitForProvisioning ==> final(device).persist
            == wifi_net::without_credentials(old(device).persist) && final(device).transit is None,
        r != AfterRun::WaitForProvisioning ==> final(device).persist == old(device).persist
            && final(device).transit == old(device).transit,
{
    let ghost start = fx@;
    assert(fx@ =~= start + Seq::<Effect>::empty());
    match result {
        Ok(()) => AfterRun::Wait,
        Err(WsClientError::AuthFailed) => {
            fx.push(Effect::Report(Report::WsAuthFailed));
            leds::set_status(LedStatus::AuthError, fx);
            assert(fx@ =~= start + (seq![Effect::Report(Report::WsAuthFailed)]
                + leds::status_effects(LedStatus::AuthError)));
            AfterRun::Wait
        },
        Err(WsClientError::RestartProvisioning) => {
            wifi_net::start_provisioning(
                &mut device.persist,
                &mut device.transit,
                &mut device.leds,
                fx,
            );
            AfterRun::WaitForProvisioning
        },
        Err(WsClientError::FactoryReset) => {
            ota::boot_from_factory(fx);
            assert(fx@ =~= start + seq![
                Effect::OtaCancel,
                Effect::OtaSignal(OtaEvent::BootFromFactory),
            ]);
            AfterRun::Wait
        },
        Err(WsClientError::Reboot) => AfterRun::Restart,
        Err(WsClientError::Reconnect) => AfterRun::Reconnect,
        Err(WsClientError::WsError { invalid: true }) => AfterRun::Wait,
        Err(WsClientError::Timeout) => AfterRun::Wait,
        Err(reason) => {
            fx.push(Effect::Report(Report::WsConnectionFailed { reason }));
            leds::set_status(LedStatus::ServerError, fx);
            assert(fx@ =~= start + (seq![Effect::Report(Report::WsConnectionFailed { reason })]
                + leds::status_effects(LedStatus::ServerError)));
            AfterRun::Wait
        },
    }
}

// ---------------------------------------------------------------------------------------------
// Laws
// ---------------------------------------------------------------------------------------------

/// A configuration that the server sends back as it was changes nothing but which copy is held,
/// and asks for nothing, unless it cancels an update.
pub proof fn lemma_same_config_is_quiet(
    config: DeviceConfig,
    before: Device,
    after: Device,
    fx: Seq<Effect>,
    now_instant_ms: u32,
)
    requires
        config_handled(config, before, after, fx, now_instant_ms),
        before.persist.config.same(config),
        before.session.auto_update_scheduled_unix_timestamp is None,
    ensures
        fx == Seq::<Effect>::empty(),
        after.transit == before.transit,
        after.session == before.session,
{
    assert(fx =~= Seq::<Effect>::empty());
}

/// What the server sets the light to is what the device then reports.
pub proof fn lemma_status_is_reported_back(
    on: bool,
    before: Device,
    after: Device,
    fx: Seq<Effect>,
    reply: Payload,
    config: Config,
    errors: Seq<proto::DeviceError>,
    unix_timestamp: u32,
    m: Measurements,
)
    requires
        status_handled(on, before, after, fx),
        answers(WsClientNotify::Status, reply, after, config, errors, unix_timestamp, m),
    ensures
        reply matches Payload::Status(status) && status.is_light_on == on,
{
}

/// No message but a reset changes credentials: all others leave them as they are.
pub proof fn lemma_credentials_stay(
    payload: Payload,
    payload_len: usize,
    before: Device,
    after: Device,
    fx: Seq<Effect>,
    uptime_secs: u32,
    now_instant_ms: u32,
    product: ProductConfig,
)
    requires
        handled(
            payload,
            payload_len,
            before,
            after,
            fx,
            uptime_secs,
            now_instant_ms,
            product,
        ),
        payload != Payload::Command(DeviceCommand::FactoryReset),
    ensures
        after.persist.wifi_ssid == before.persist.wifi_ssid,
        after.persist.wifi_password == before.persist.wifi_password,
        after.persist.prov_token == before.persist.prov_token,
        after.persist.access_token == before.persist.access_token,
{
}

/// The server turns the light on or off, and what it says holds against the timer. Nothing else of
/// the session or the settings changes. If that changed anything, the server is told.
pub proof fn lemma_server_sets_light(
    status: DeviceStatus,
    payload_len: usize,
    before: Device,
    after: Device,
    fx: Seq<Effect>,
    uptime_secs: u32,
    now_instant_ms: u32,
    product: ProductConfig,
)
    requires
        handled(
            Payload::Status(status),
            payload_len,
            before,
            after,
            fx,
            uptime_secs,
            now_instant_ms,
            product,
        ),
    ensures
        after.session.light_on == status.is_light_on,
        after.session.light_on_override == Some(status.is_light_on),
        after.session == (SessionSettings {
            light_on: after.session.light_on,
            light_on_override: after.session.light_on_override,
            ..before.session
        }),
        after.persist == before.persist,
        after.transit == before.transit,
        after.session != before.session ==> fx.contains(Effect::Notify(WsClientNotify::Telemetry)),
        after.session == before.session ==> !fx.contains(
            Effect::Notify(WsClientNotify::Telemetry),
        ),
{
    if after.session != before.session {
        assert(fx[0] == Effect::Notify(WsClientNotify::Telemetry));
    } else {
        let shown = leds::session_status_effects(after.session, after.persist);
        assert(fx =~= shown);
        if after.persist.is_provisioned() {
            assert(shown[0] == Effect::CancelStatusAnimation);
            assert(shown[1] is StartStatusAnimation);
        }
    }
}

/// A configuration from the server is held as it came. If it says something else than the one
/// before, it is stored and all is rendered anew; it is never sent back. The update that is
/// scheduled is canceled exactly if the configuration disables automatic updates.
pub proof fn lemma_server_sets_config(
    config: DeviceConfig,
    payload_len: usize,
    before: Device,
    after: Device,
    fx: Seq<Effect>,
    uptime_secs: u32,
    now_instant_ms: u32,
    product: ProductConfig,
)
    requires
        handled(
            Payload::Config(config),
            payload_len,
            before,
            after,
            fx,
            uptime_secs,
            now_instant_ms,
            product,
        ),
    ensures
        after.persist == (PersistSettings { config, ..before.persist }),
        after.session == before.session,
        fx.contains(Effect::StorePersistSettings) <==> !before.persist.config.same(config),
        fx.contains(Effect::RenderNow) <==> !before.persist.config.same(config),
        fx.contains(Effect::OtaCancel) <==> !config.auto_firmware_update_enabled
            && before.session.auto_update_scheduled_unix_timestamp is Some,
        !fx.contains(Effect::Notify(WsClientNotify::Config)),
        before.persist.config.same(config) ==> after.transit == before.transit,
        !before.persist.config.same(config) && before.transit is Some ==> (after.transit matches
            Some(s) && s.stats.telemetry_pending && s.data == before.transit->0.data),
{
    let cancels = !config.auto_firmware_update_enabled
        && before.session.auto_update_scheduled_unix_timestamp is Some;
    let changed = !before.persist.config.same(config);
    let n: int = if cancels {
        1
    } else {
        0
    };
    if cancels {
        assert(fx[0] == Effect::OtaCancel);
    }
    if changed {
        assert(fx[n] == Effect::StorePersistSettings);
        assert(fx[n + 1] == Effect::RenderNow);
    }
}

/// Commands of the server that end the connection do so for the reason that goes with them, which
/// says what the device does then. All commands but resets keep the settings, and those that the
/// device does not know do nothing.
pub proof fn lemma_server_commands(
    command: DeviceCommand,
    payload_len: usize,
    before: Device,
    after: Device,
    fx: Seq<Effect>,
    uptime_secs: u32,
    now_instant_ms: u32,
    product: ProductConfig,
)
    requires
        handled(
            Payload::Command(command),
            payload_len,
            before,
            after,
            fx,
            uptime_secs,
            now_instant_ms,
            product,
        ),
    ensures
        match command {
            DeviceCommand::Reboot => {
                &&& fx.last() == Effect::QuitWs(Err(WsClientError::Reboot))
                &&& after.transit is None
                &&& forall|i: int|
                    0 < i < after.leds@.len() ==> #[trigger] after.leds@[i] == (crate::util::RGB8 {
                        r: 0,
                        g: 0,
                        b: 0,
                    })
            },
            DeviceCommand::FactoryReset => {
                &&& fx.last() == Effect::QuitWs(Err(WsClientError::FactoryReset))
                &&& persist::is_default(after.persist, product)
                &&& fx.contains(Effect::Notify(WsClientNotify::Config))
                &&& !before.persist.same(after.persist) ==> fx[0] == Effect::StorePersistSettings
            },
            DeviceCommand::Reprovision => fx.len() == 1 && fx[0] == Effect::QuitWs(
                Err(WsClientError::RestartProvisioning),
            ),
            DeviceCommand::Reconnect => fx.len() == 1 && fx[0] == Effect::QuitWs(
                Err(WsClientError::Reconnect),
            ),
            DeviceCommand::Identify => fx == leds::pixels_effects(LedPixels::Identify),
            DeviceCommand::TestLeds => fx == leds::pixels_effects(LedPixels::TestMode)
                && after.session.test_mode_active,
            DeviceCommand::ResetConfigDefaults => {
                &&& after.session.light_on && after.session.light_on_override is None
                &&& fx.last() == Effect::Notify(WsClientNotify::Status)
                &&& fx.contains(Effect::Notify(WsClientNotify::Config))
                &&& after.persist.without_config(before.persist)
                &&& after.transit == before.transit
            },
            DeviceCommand::StartFirmwareUpdate => {
                &&& before.session.firmware_update_available is None ==> fx.len() == 1 && fx[0]
                    == Effect::Report(Report::UpdateCommandWithoutUpdate)
                &&& before.session.firmware_update_available matches Some(update) ==> {
                    &&& before.session.updating_firmware ==> fx.len() == 0
                    &&& !before.session.updating_firmware ==> fx.len() == 2 && (fx[1] matches
                        Effect::OtaSignal(OtaEvent::StartUpdate(u)) && u.same(update))
                }
            },
            DeviceCommand::Unknown(_) => after == before && fx.len() == 0,
        },
        command != DeviceCommand::FactoryReset && command != DeviceCommand::ResetConfigDefaults
            ==> after.persist == before.persist,
        command != DeviceCommand::TestLeds && command != DeviceCommand::ResetConfigDefaults
            ==> after.session == before.session,
{
    match command {
        DeviceCommand::FactoryReset => {
            assert(fx[fx.len() - 2] == Effect::Notify(WsClientNotify::Config));
        },
        DeviceCommand::ResetConfigDefaults => {
            assert(fx[fx.len() - 2] == Effect::Notify(WsClientNotify::Config));
            assert(fx[fx.len() - 1] == Effect::Notify(WsClientNotify::Status));
        },
        _ => {},
    }
}

/// An echo is sent back as it came, with telemetry behind it.
pub proof fn lemma_echo_comes_back(
    echo: Echo,
    payload_len: usize,
    before: Device,
    after: Device,
    fx: Seq<Effect>,
    uptime_secs: u32,
    now_instant_ms: u32,
    product: ProductConfig,
    reply: Payload,
    config: Config,
    errors: Seq<proto::DeviceError>,
    m: Measurements,
)
    requires
        handled(
            Payload::Echo(echo),
            payload_len,
            before,
            after,
            fx,
            uptime_secs,
            now_instant_ms,
            product,
        ),
    ensures
        fx.len() == 2,
        fx[0] matches Effect::Notify(notify) && (answers(
            notify,
            reply,
            after,
            config,
            errors,
            uptime_secs,
            m,
        ) <==> reply == Payload::Echo(echo)),
        fx[1] == Effect::Notify(WsClientNotify::Telemetry),
        after == before,
{
}

/// An update that is offered is kept at hand. It is scheduled, to start five minutes later, exactly
/// if the configuration allows that, no update is in progress, and none is scheduled yet.
pub proof fn lemma_update_is_offered(
    update: DeviceUpdate,
    payload_len: usize,
    before: Device,
    after: Device,
    fx: Seq<Effect>,
    uptime_secs: u32,
    now_instant_ms: u32,
    product: ProductConfig,
)
    requires
        handled(
            Payload::DeviceUpdate(update),
            payload_len,
            before,
            after,
            fx,
            uptime_secs,
            now_instant_ms,
            product,
        ),
    ensures
        after.session == (SessionSettings {
            firmware_update_available: Some(update),
            ..before.session
        }),
        after.persist == before.persist,
        after.transit == before.transit,
        ({
            let schedules = before.persist.config.auto_firmware_update_enabled
                && !before.session.updating_firmware
                && before.session.auto_update_scheduled_unix_timestamp is None;
            &&& schedules ==> fx.len() >= 2 && fx[0] == Effect::OtaCancel && (fx[1] matches
                Effect::OtaSignal(OtaEvent::ScheduleUpdate(u, delay)) && u.same(update) && delay
                == 300)
            &&& !schedules ==> forall|i: int| 0 <= i < fx.len() ==> !(#[trigger] fx[i] is OtaSignal)
        }),
{
    let asked = choose|asked: Seq<Effect>| #[trigger]
        scheduled_if(before, asked, update) && fx == asked + leds::session_status_effects(
            after.session,
            after.persist,
        );
    assert(scheduled_if(before, asked, update));
    let shown = leds::session_status_effects(after.session, after.persist);
    if before.persist.config.auto_firmware_update_enabled && !before.session.updating_firmware
        && before.session.auto_update_scheduled_unix_timestamp is None {
        assert(fx[0] == asked[0] && fx[1] == asked[1]);
    } else {
        assert(fx =~= shown);
    }
}

/// Transit data takes the place of what there was. The session and the credentials stay.
pub proof fn lemma_transit_data_arrives(
    data: TransitData,
    payload_len: usize,
    before: Device,
    after: Device,
    fx: Seq<Effect>,
    uptime_secs: u32,
    now_instant_ms: u32,
    product: ProductConfig,
)
    requires
        handled(
            Payload::TransitData(data),
            payload_len,
            before,
            after,
            fx,
            uptime_secs,
            now_instant_ms,
            product,
        ),
    ensures
        after.transit matches Some(s) && {
            &&& s.data == data
            &&& s.state.stop_id_to_loc_id_map@.len() == data.stops@.len()
            &&& s.state.renderer_out.vehicles@.len() == data.vehicle_movements@.len()
            &&& s.state.renderer_out.disruptions@.len() == data.disruptions@.len()
            &&& s.state.rendered_state.rendered_data_first_at_instant_ms is None
            &&& s.state.rendered_state.disruptions_render_pending
            &&& s.stats.telemetry_pending
            &&& (s.stats.received_at_timestamp - before.session.unix_epoch_offset_secs
                - uptime_secs) % 0x1_0000_0000 == 0
        },
        after.session == before.session,
        after.persist.without_config(before.persist),
{
}

/// The time from the server is taken over, and the device says in turn what it is.
pub proof fn lemma_server_info_arrives(
    info: ServerInfo,
    payload_len: usize,
    before: Device,
    after: Device,
    fx: Seq<Effect>,
    uptime_secs: u32,
    now_instant_ms: u32,
    product: ProductConfig,
)
    requires
        handled(
            Payload::ServerInfo(info),
            payload_len,
            before,
            after,
            fx,
            uptime_secs,
            now_instant_ms,
            product,
        ),
    ensures
        after.session.is_time_synced,
        (after.session.unix_epoch_offset_secs + uptime_secs - info.unix_timestamp) % 0x1_0000_0000
            == 0,
        (after.session.local_time_of_day_offset_secs + uptime_secs - info.local_time_of_day_seconds)
            % 0x1_0000_0000 == 0,
        after.session.light_on == before.session.light_on,
        after.persist == before.persist,
        after.transit == before.transit,
        fx[0] == Effect::Notify(WsClientNotify::Info),
{
}

/// Of frames, binary ones are decoded, but for transit data while the firmware is updated or the
/// LEDs are tested. Transit data is told by the first three bytes. A ping is passed over, a close
/// ends the connection, and any other frame ends it with an error.
pub proof fn lemma_frames(kind: FrameKind, payload: Seq<u8>, session: SessionSettings)
    ensures
        ({
            let transit = payload.len() >= 3 && payload.take(3) == seq![0x08u8, 0x01, 0x52];
            match kind {
                FrameKind::Binary { .. } => {
                    &&& !transit ==> frame_step(kind, payload, session) == FrameStep::Decode
                    &&& transit && !session.updating_firmware && !session.test_mode_active
                        ==> frame_step(kind, payload, session) == FrameStep::Decode
                    &&& transit && (session.updating_firmware || session.test_mode_active)
                        ==> frame_step(kind, payload, session) == FrameStep::Next
                },
                FrameKind::Ping => frame_step(kind, payload, session) == FrameStep::Next,
                FrameKind::Close => frame_step(kind, payload, session) == FrameStep::End(Ok(())),
                FrameKind::Other => frame_step(kind, payload, session) == FrameStep::End(
                    Err(WsClientError::DataError),
                ),
            }
        }),
{
    let head = seq![0x08u8, 0x01, 0x52];
    if payload.len() >= 3 {
        if payload.take(3) == head {
            assert(payload.take(3)[0] == head[0] && payload.take(3)[1] == head[1]
                && payload.take(3)[2] == head[2]);
        }
        if has_transit_data(payload) {
            assert(payload.take(3) =~= head);
        }
    }
}

/// A message is handled exactly if it made sense, is of the version that the device speaks and holds
/// something. One of another version is reported with that version.
pub proof fn lemma_messages(message: Option<ClientMessage>)
    ensures
        message_error(message) is None <==> message is Some && message->0.version == proto::VERSION
            && message->0.payload is Some,
        message_error(message) matches Some(err) ==> err == WsClientError::DataError,
        message is Some && message->0.version != proto::VERSION ==> message_reports(message)
            == seq![
            Effect::Report(Report::WsVersionMismatch { version: message->0.version }),
        ],
        message is None || message->0.version == proto::VERSION ==> message_reports(message).len()
            == 0,
{
}

/// After a connection the device restarts if it was told to reboot, connects again at once if it was
/// told so, and else waits. A token that is refused, and a server that cannot be reached, are
/// reported and shown; a timeout, a frame without sense and a regular end are not. A reset boots the
/// first firmware.
pub proof fn lemma_ends_of_connection(result: Result<(), WsClientError>, settings: PersistSettings)
    ensures
        ({
            let fx = after_run_effects(result, settings);
            let shows = |status: LedStatus|
                fx.contains(Effect::StartStatusAnimation(leds::status_pattern(status)));
            &&& after_run(result) == AfterRun::Restart <==> result == Err::<(), _>(
                WsClientError::Reboot,
            )
            &&& after_run(result) == AfterRun::Reconnect <==> result == Err::<(), _>(
                WsClientError::Reconnect,
            )
            &&& after_run(result) == AfterRun::WaitForProvisioning <==> result == Err::<(), _>(
                WsClientError::RestartProvisioning,
            )
            &&& match result {
                Ok(())
                | Err(WsClientError::Reboot)
                | Err(WsClientError::Reconnect)
                | Err(WsClientError::Timeout)
                | Err(WsClientError::WsError { invalid: true }) => fx.len() == 0,
                Err(WsClientError::AuthFailed) => shows(LedStatus::AuthError) && fx[0]
                    == Effect::Report(Report::WsAuthFailed),
                Err(WsClientError::FactoryReset) => fx.last() == Effect::OtaSignal(
                    OtaEvent::BootFromFactory,
                ),
                Err(WsClientError::RestartProvisioning) => fx.contains(
                    Effect::WifiSignal(wifi_net::WifiNetEvent::StartProvisioning),
                ),
                Err(reason) => shows(LedStatus::ServerError) && fx[0] == Effect::Report(
                    Report::WsConnectionFailed { reason },
                ),
            }
        }),
{
    let fx = after_run_effects(result, settings);
    match result {
        Err(WsClientError::RestartProvisioning) => {
            let n: int = if wifi_net::has_credential(settings) {
                2
            } else {
                1
            };
            assert(fx[n] == Effect::WifiSignal(wifi_net::WifiNetEvent::StartProvisioning));
        },
        _ => {
            if fx.len() == 3 {
                assert(fx[2] is StartStatusAnimation);
            }
        },
    }
}

/// Errors are sent in the order in which they were logged, each as it was, with the time at which
/// they are sent.
pub proof fn lemma_errors_are_stamped(errors: Seq<proto::DeviceError>, now: u32, i: int)
    requires
        0 <= i < errors.len(),
    ensures
        stamped(errors, now).len() == errors.len(),
        stamped(errors, now)[i].unix_timestamp == now,
        stamped(errors, now)[i] == (proto::DeviceError { unix_timestamp: now, ..errors[i] }),
{
}

/// Telemetry tells the server what was counted as the data was rendered, each count under its own
/// name, and the brightness that is in force.
pub proof fn lemma_telemetry_tells_counts(
    payload: Payload,
    device: Device,
    config: Config,
    errors: Seq<proto::DeviceError>,
    unix_timestamp: u32,
    m: Measurements,
)
    requires
        answers(
            WsClientNotify::Telemetry,
            payload,
            device,
            config,
            errors,
            unix_timestamp,
            m,
        ),
    ensures
        payload matches Payload::Telemetry(t) && {
            &&& t.uptime_seconds == m.uptime_seconds
            &&& m.wifi_rssi_dbm matches Some(rssi) ==> t.wifi_rssi_dbm == rssi
            &&& m.wifi_rssi_dbm is None ==> t.wifi_rssi_dbm == 0
            &&& t.auto_update_scheduled_unix_timestamp
                == device.session.auto_update_scheduled_unix_timestamp
            &&& t.heap_size_bytes == m.heap_size_bytes
            &&& t.heap_max_used_bytes == m.heap_max_used_bytes
            &&& t.heap_current_used_bytes == m.heap_current_used_bytes
            &&& t.current_estimate_milliamps == m.current_estimate_milliamps
            &&& t.update_progress_percent == device.session.update_progress_percent
            &&& t.update_speed_bytes_per_second == device.session.update_speed_bytes_per_sec
            &&& device.session.auto_brightness_percent matches Some(p) ==> t.brightness_percent == p
            &&& device.session.auto_brightness_percent is None
                && device.persist.config.brightness_percent <= 255 ==> t.brightness_percent
                == device.persist.config.brightness_percent
            &&& device.transit matches Some(s) ==> {
                &&& t.num_vehicles_available == s.stats.num_vehicles_available
                &&& t.num_vehicles_visible == s.stats.num_vehicles_visible
                &&& t.num_vehicles_visible_real_time == s.stats.num_vehicles_visible_real_time
                &&& t.num_disruptions_available == s.stats.num_disruptions_available
                &&& t.num_disruptions_visible == s.stats.num_disruptions_visible
                &&& t.num_pixels_on == s.stats.num_pixels_on
                &&& t.last_transit_data_received_unix_timestamp == s.stats.received_at_timestamp
                &&& t.last_transit_data_sourced_unix_timestamp == s.stats.sourced_at_timestamp
                &&& t.last_transit_data_simulated_until_unix_timestamp
                    == s.stats.simulated_until_timestamp
                &&& t.transit_data_downlink_bytes_per_second
                    == s.stats.transit_data_downlink_bytes_per_second
                &&& t.available_vehicle_lines@ == s.stats.available_vehicle_lines@
                &&& t.available_disrupted_lines@ == s.stats.available_disrupted_lines@
                &&& t.feed_source@ == s.stats.feed_source@
            }
            &&& device.transit is None ==> t.num_vehicles_available == 0 && t.num_vehicles_visible
                == 0 && t.num_vehicles_visible_real_time == 0 && t.num_disruptions_available == 0
                && t.num_disruptions_visible == 0 && t.num_pixels_on == 0
        },
{
}

/// What a message is not about stays as it is: the settings and the transit data unless the message
/// brings them, the lights unless the device is to restart, and the session unless the message is
/// for it.
pub proof fn lemma_what_stays(
    payload: Payload,
    payload_len: usize,
    before: Device,
    after: Device,
    fx: Seq<Effect>,
    uptime_secs: u32,
    now_instant_ms: u32,
    product: ProductConfig,
)
    requires
        handled(
            payload,
            payload_len,
            before,
            after,
            fx,
            uptime_secs,
            now_instant_ms,
            product,
        ),
    ensures
        payload !is Config && payload !is TransitData && payload !is Command ==> {
            &&& after.persist == before.persist
            &&& after.transit == before.transit
        },
        payload !is Command ==> after.leds == before.leds,
        payload is Config || payload is TransitData || payload is Echo ==> after.session
            == before.session,
        payload matches Payload::Command(command) ==> {
            &&& command != DeviceCommand::Reboot ==> after.transit == before.transit && after.leds@
                == before.leds@
        },
        payload matches Payload::TransitData(data) ==> after.persist.config.without_lines(
            before.persist.config,
        ),
{
}

/// After a reset the settings are the defaults, with the lines of the transit data that there is.
/// They are stored unless they were the defaults before.
pub proof fn lemma_reset_to_defaults(
    payload_len: usize,
    before: Device,
    after: Device,
    fx: Seq<Effect>,
    uptime_secs: u32,
    now_instant_ms: u32,
    product: ProductConfig,
) -> (fresh: DeviceConfig)
    requires
        handled(
            Payload::Command(DeviceCommand::ResetConfigDefaults),
            payload_len,
            before,
            after,
            fx,
            uptime_secs,
            now_instant_ms,
            product,
        ),
    ensures
        persist::is_default_config(fresh, product),
        after.persist.config.without_lines(fresh),
        before.transit is None ==> after.persist.config.line_configs@.len() == 0,
        !before.persist.config.same(fresh) ==> fx[0] == Effect::StorePersistSettings,
        before.transit is None && before.persist.config.same(fresh) ==> fx.len() == 2,
{
    let lines = match before.transit {
        Some(s) => s.data.lines@,
        None => Seq::empty(),
    };
    let update = transit_data::after_lines(Seq::empty(), lines, lines.len());
    choose|fresh: DeviceConfig|
        {
            &&& #[trigger] persist::is_default_config(fresh, product)
            &&& after.persist.config.without_lines(fresh)
            &&& after.persist.config.line_configs@ == update.configs
            &&& after.persist.without_config(before.persist)
            &&& after.session == (SessionSettings {
                light_on: true,
                light_on_override: None,
                ..before.session
            })
            &&& after.transit == before.transit
            &&& after.leds == before.leds
            &&& fx == persist::stored_if(
                Seq::empty(),
                !before.persist.config.same(fresh),
            ) + transit_data::line_effects(update) + seq![
                Effect::Notify(WsClientNotify::Config),
                Effect::Notify(WsClientNotify::Status),
            ]
        }
}

} // verus!
