//! Authentication with the server.

use vstd::prelude::*;

use crate::config;
use crate::config::Config;
use crate::effects::Effects;
use crate::net::prov_server;
use crate::net::prov_server::ConnectWifiRequestApi;
use crate::net::wifi_net;
use crate::net::ws_client::WsClientError;
use crate::outside::bounded;
use crate::outside::http;
use crate::store::app_settings::persist;
use crate::store::app_settings::persist::PersistSettings;

verus! {

/// Where devices get their access token.
pub const AUTH_ENDPOINT: &'static str = "/auth";

/// Where devices connect.
pub const WS_ENDPOINT: &'static str = "/ws";

/// What a device says of itself to get an access token.
#[derive(Debug)]
pub struct AuthBody {
    pub hardware_id: String,
    pub product_ident: String,
    pub model: String,
    pub hw_major: u32,
    pub hw_minor: u32,
    pub fw_major: u32,
    pub fw_minor: u32,
    pub fw_patch: u32,
    pub feed_ident: String,
}

/// What the device says of itself.
pub fn auth_body(cfg: &Config, unique_id: &[u8; 16]) -> (b: AuthBody)
    ensures
        b.hardware_id@ == config::hex_string(unique_id@),
        b.product_ident@ == cfg.product.ident(),
        b.model@ == cfg.product.model(),
        b.hw_major == cfg.hw_version.major,
        b.hw_minor == cfg.hw_version.minor,
        b.fw_major == cfg.fw_version.major,
        b.fw_minor == cfg.fw_version.minor,
        b.fw_patch == cfg.fw_version.patch,
        b.feed_ident@ == cfg.cfg.data_feed@,
{
    AuthBody {
        hardware_id: config::get_hardware_id_str(unique_id),
        product_ident: cfg.product.as_str().to_owned(),
        model: cfg.product.as_model_str().to_owned(),
        hw_major: cfg.hw_version.major,
        hw_minor: cfg.hw_version.minor,
        fw_major: cfg.fw_version.major,
        fw_minor: cfg.fw_version.minor,
        fw_patch: cfg.fw_version.patch,
        feed_ident: cfg.cfg.data_feed.to_owned(),
    }
}

/// The headers of a request for an access token.
pub fn provision_headers(host: &str, prov_token: &str) -> (r: Vec<(String, String)>)
    ensures
        r@.len() == 2,
        http::is_header(r@[0], "Host"@, host@),
        http::is_header(r@[1], "Provisioning-Token"@, prov_token@),
{
    let mut r: Vec<(String, String)> = Vec::new();
    r.push(("Host".to_owned(), host.to_owned()));
    r.push(("Provisioning-Token".to_owned(), prov_token.to_owned()));
    r
}

/// Checks the status of the answer to a request for an access token.
pub fn check_auth_status(code: u16) -> (r: Result<(), WsClientError>)
    ensures
        r == (if code == 200 {
            Ok::<(), WsClientError>(())
        } else {
            Err(WsClientError::AuthFailed)
        }),
{
    if code != 200 {
        Err(WsClientError::AuthFailed)
    } else {
        Ok(())
    }
}

/// Settings with an access token in place of the provisioning token.
pub open spec fn authorized(s: PersistSettings, access_token: Option<String>) -> PersistSettings {
    PersistSettings { prov_token: None, access_token, ..s }
}

/// A device that was given a network and a token and then got its access token is set up: it has all
/// that it needs to connect, and the provisioning token is gone. Until it starts anew, that is.
pub proof fn lemma_set_up(
    before: PersistSettings,
    request: ConnectWifiRequestApi,
    token: Option<String>,
    access_token: String,
)
    ensures
        ({
            let connected = prov_server::with_credentials(before, request, token);
            let after = authorized(connected, Some(access_token));
            &&& after.is_provisioned()
            &&& after.prov_token is None
            &&& after.wifi_ssid == Some(request.ssid)
            &&& after.wifi_password == Some(request.password)
            &&& after.config == before.config
            &&& !wifi_net::without_credentials(after).is_provisioned()
        }),
{
}

/// Takes the access token from the answer, `None` if the answer makes no sense. It takes the place
/// of the provisioning token.
pub fn store_access_token(
    access_token: Option<&str>,
    settings: &mut PersistSettings,
    fx: &mut Effects,
) -> (r: Result<(), WsClientError>)
    ensures
        match access_token {
            Some(token) if vstd::utf8::encode_utf8(token@).len() <= persist::SECRET_MAX_LEN => {
                &&& r is Ok
                &&& final(settings).prov_token is None
                &&& persist::text(final(settings).access_token) == Some(token@)
                &&& *final(settings) == authorized(
                    *old(settings),
                    final(settings).access_token,
                )
                &&& old(settings).wf() ==> final(settings).wf()
                &&& final(fx)@ == persist::stored_if(
                    old(fx)@,
                    old(settings).prov_token is Some || persist::text(old(settings).access_token)
                        != Some(token@),
                )
            },
            _ => {
                &&& r == Err::<(), _>(WsClientError::DataError)
                &&& *final(settings) == *old(settings)
                &&& final(fx)@ == old(fx)@
            },
        },
{
    let token = match access_token {
        Some(token) => token,
        None => {
            return Err(WsClientError::DataError);
        },
    };
    let token = match bounded::string_of_capacity::<64>(token) {
        Some(token) => token,
        None => {
            return Err(WsClientError::DataError);
        },
    };
    let token = Some(token);
    let changed = settings.prov_token.is_some() || !persist::same_text(
        &settings.access_token,
        &token,
    );
    settings.prov_token = None;
    settings.access_token = token;
    let _ = persist::note_update(changed, fx);
    Ok(())
}

/// The headers of a request to connect.
pub fn websocket_headers(host: &str, access_token: &str, nonce: &[u8; 16]) -> (r: Vec<
    (String, String),
>)
    ensures
        r@.len() == 8,
        http::is_header(r@[0], "Host"@, host@),
        http::is_header(r@[1], "Origin"@, "ledtransit-client"@),
        http::is_header(r@[2], "Content-Length"@, "0"@),
        http::is_header(r@[3], "Connection"@, "Upgrade"@),
        http::is_header(r@[4], "Upgrade"@, "websocket"@),
        http::is_header(r@[5], "Sec-WebSocket-Version"@, "13"@),
        http::is_header(r@[6], "Sec-WebSocket-Key"@, http::websocket_key(nonce@)),
        http::is_header(r@[7], "Access-Token"@, access_token@),
{
    let mut r = http::upgrade_request_headers(host, "ledtransit-client", nonce);
    r.push(("Access-Token".to_owned(), access_token.to_owned()));
    r
}

/// Checks the answer to a request to connect.
pub fn check_upgrade(accepted: bool) -> (r: Result<(), WsClientError>)
    ensures
        r == (if accepted {
            Ok::<(), WsClientError>(())
        } else {
            Err(WsClientError::AuthFailed)
        }),
{
    if accepted {
        Ok(())
    } else {
        Err(WsClientError::AuthFailed)
    }
}

/// Checks the response to a request to connect that was made with a nonce.
pub fn check_upgrade_response(code: u16, headers: &Vec<(String, String)>, nonce: &[u8; 16]) -> (r:
    Result<(), WsClientError>)
    ensures
        r == (if http::accepts_upgrade(code, http::header_texts(headers@), nonce@) {
            Ok::<(), WsClientError>(())
        } else {
            Err(WsClientError::AuthFailed)
        }),
        code != 101 ==> r == Err::<(), WsClientError>(WsClientError::AuthFailed),
{
    check_upgrade(http::is_upgrade_accepted(code, headers, nonce))
}

} // verus!
