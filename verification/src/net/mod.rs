//! Network side of the device.

pub mod auth_client;
pub mod prov_server;
pub mod wifi_net;
pub mod ws_client;
